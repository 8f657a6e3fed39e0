//! Plain-value data model for the gateway's wire protocol.
//!
//! Session ids are 128-bit integers (minted from a random UUID at accept
//! time), remote connection ids are the engine's 64-bit ids, and all
//! buffers are byte vectors. Settings that the remote engine interprets
//! (connect mode, UDP mode, security settings, transfer type) are carried
//! as small plain enums and structs; the gateway only moves them along.

use vstd::prelude::*;

verus! {

/// How the remote engine should establish the logical peer connection.
#[derive(Debug, Clone, PartialEq, Eq)]
pub enum ConnectMode {
    Standard,
    Fetch,
}

/// Whether the remote engine may use UDP for the connection.
#[derive(Debug, Clone, PartialEq, Eq)]
pub enum UdpMode {
    Enabled,
    Disabled,
}

/// Security parameters handed through to the remote engine.
#[derive(Debug, Clone, PartialEq, Eq)]
pub struct SessionSecuritySettings {
    pub security_level: u8,
    pub secrecy_mode: u8,
    pub crypto_params: u8,
}

/// How a file transfer is to be performed by the remote engine.
#[derive(Debug, Clone, PartialEq, Eq)]
pub enum TransferType {
    FileTransfer,
    RemoteVirtualFilesystem { virtual_path: String, security_level: u8 },
}

/// A peer as the remote engine identifies it.
#[derive(Debug, Clone, PartialEq, Eq)]
pub enum UserIdentifier {
    Id(u64),
    Username(String),
}

/// A command sent by a client to the gateway, one per frame.
#[derive(Debug, Clone, PartialEq)]
pub enum InternalServicePayload {
    Connect {
        uuid: u128,
        username: String,
        password: Vec<u8>,
        connect_mode: ConnectMode,
        udp_mode: UdpMode,
        keep_alive_timeout_millis: Option<u64>,
        session_security_settings: SessionSecuritySettings,
    },
    Register {
        uuid: u128,
        server_addr: String,
        full_name: String,
        username: String,
        proposed_password: Vec<u8>,
        default_security_settings: SessionSecuritySettings,
    },
    Message {
        uuid: u128,
        message: Vec<u8>,
        cid: u64,
        user_cid: u64,
        security_level: u8,
    },
    Disconnect {
        uuid: u128,
        cid: u64,
    },
    SendFile {
        uuid: u128,
        source: String,
        cid: u64,
        chunk_size: u64,
        transfer_type: TransferType,
    },
    DownloadFile {
        virtual_path: String,
        transfer_security_level: u8,
        delete_on_pull: bool,
        cid: u64,
        uuid: u128,
    },
    StartGroup {
        initial_users_to_invite: Option<Vec<UserIdentifier>>,
        cid: u64,
        uuid: u128,
    },
}

/// A response routed by the gateway back to one client, one per frame.
#[derive(Debug, Clone, PartialEq)]
pub enum InternalServiceResponse {
    ConnectSuccess { cid: u64 },
    ConnectionFailure { message: String },
    RegisterSuccess { id: u128 },
    RegisterFailure { message: String },
    ServiceConnectionAccepted { id: u128 },
    MessageSent { cid: u64 },
    MessageSendError { cid: u64, message: String },
    MessageReceived { message: Vec<u8>, cid: u64, peer_cid: u64 },
    DisconnectSuccess { cid: u64 },
    DisconnectFailure { cid: u64, message: String },
    SendFileSuccess { cid: u64 },
    SendFileFailure { cid: u64, message: String },
}

} // verus!
