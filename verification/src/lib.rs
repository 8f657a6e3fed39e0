//! A local gateway that lets client applications reach a secure remote
//! networking fabric over a framed TCP socket.
//!
//! The verified core covers the wire format (length-prefixed frames and the
//! binary payload encoding) and the command-routing state machine that
//! correlates client sessions with remote connections.

pub mod codec;
pub mod frame;
pub mod router;
pub mod session_id;
pub mod types;
