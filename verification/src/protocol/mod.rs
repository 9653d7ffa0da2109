//! Session identifiers and the session's transit states.

pub mod session;

pub use session::Session;

use vstd::prelude::*;
use crate::crypto::{SharedSecret, blake3_derive_key, derive_key};
use crate::error::PolygoneError;

verus! {

/// Calls `getrandom::getrandom` on a 16-byte buffer: fills it with
/// bytes from the operating system, or reports the error's message.
/// Nothing is claimed of the bytes, which are random.
#[verifier::external_body]
pub(crate) fn fill_random_16(buf: &mut [u8; 16]) -> (r: core::result::Result<(), String>)
{
    getrandom::getrandom(buf).map_err(|e| e.to_string())
}

/// Domain label of session identifiers.
pub open spec fn session_id_label() -> Seq<char> {
    "polygone session id v1"@
}

/// A session identifier (16 bytes; not secret, relays route by it).
#[derive(Debug, Clone, Copy, PartialEq, Eq, Hash)]
pub struct SessionId(pub [u8; 16]);

impl SessionId {
    /// The identifier both peers derive from their shared secret: the
    /// first 16 bytes of a BLAKE3 key derivation under its own label.
    pub fn from_shared_secret(ss: &SharedSecret) -> (r: SessionId)
        ensures
            r.0@ == blake3_derive_key(session_id_label(), ss.0@).take(16),
    {
        let hash = derive_key("polygone session id v1", &ss.0);
        proof { reveal_strlit("polygone session id v1"); }
        let id: [u8; 16] = [hash[0], hash[1], hash[2], hash[3], hash[4], hash[5], hash[6], hash[7],
            hash[8], hash[9], hash[10], hash[11], hash[12], hash[13], hash[14], hash[15]];
        assert(id@ =~= hash@.take(16));
        SessionId(id)
    }

    /// A fresh random identifier; the random source's failure is reported
    /// as `RngError` with its message.
    pub fn generate() -> (r: core::result::Result<SessionId, PolygoneError>)
        ensures
            r matches Err(e) ==> e is RngError,
    {
        let mut id = [0u8; 16];
        match fill_random_16(&mut id) {
            Ok(()) => Ok(SessionId(id)),
            Err(msg) => Err(PolygoneError::RngError(msg)),
        }
    }

    /// The identifier's bytes.
    pub fn as_bytes(&self) -> (r: &[u8; 16])
        ensures
            r@ == self.0@,
    {
        &self.0
    }
}

/// Where a session stands in its lifecycle.
#[derive(Debug, Clone, Copy, PartialEq, Eq)]
pub enum TransitState {
    Pending,
    Established,
    InTransit { dispatched_at: std::time::Instant },
    Completed,
    Dissolved,
}

/// The display name of a transit state.
pub open spec fn transit_state_name(s: TransitState) -> Seq<char> {
    match s {
        TransitState::Pending => "PENDING"@,
        TransitState::Established => "ESTABLISHED"@,
        TransitState::InTransit { .. } => "IN_TRANSIT"@,
        TransitState::Completed => "COMPLETED"@,
        TransitState::Dissolved => "DISSOLVED"@,
    }
}

impl TransitState {
    /// The display name of this state.
    pub fn name(&self) -> (r: &'static str)
        ensures
            r@ == transit_state_name(*self),
    {
        match self {
            TransitState::Pending => "PENDING",
            TransitState::Established => "ESTABLISHED",
            TransitState::InTransit { .. } => "IN_TRANSIT",
            TransitState::Completed => "COMPLETED",
            TransitState::Dissolved => "DISSOLVED",
        }
    }
}

} // verus!
