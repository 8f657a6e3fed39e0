//! Session-id minting: one process-unique 128-bit id per accepted socket.

use vstd::prelude::*;

verus! {

/// Relies on `uuid::Uuid::new_v4` and `Uuid::as_u128`: a freshly generated
/// random UUID as a 128-bit integer. The draw is random, so nothing is
/// promised beyond the version field that `new_v4` always sets. Should the
/// process's random source itself fail, the generator inside the call
/// aborts rather than hand back a biased id.
#[verifier::external_body]
pub fn mint_session_id() -> (r: u128)
    ensures
        (r >> 76) & 0xf == 4,
{
    uuid::Uuid::new_v4().as_u128()
}

} // verus!
