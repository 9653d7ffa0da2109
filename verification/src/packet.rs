//! Wire packets of the protocol.
//!
//! Every packet carries the protocol version, so that a node receiving a
//! packet of another version rejects it instead of misreading it.

use vstd::prelude::*;
use crate::error::{PolygoneError, Result};
use crate::fmt::{decimal, format_number};
use crate::protocol::{SessionId, fill_random_16};
use crate::time;

verus! {

/// Current protocol version. Bumped on any breaking wire-format change.
pub const PROTOCOL_VERSION: u8 = 1;

/// Maximum age (seconds) of an accepted handshake.
pub const REPLAY_WINDOW_SECS: u64 = 30;

/// Maximum clock drift into the future (seconds) of an accepted handshake.
pub const MAX_FUTURE_DRIFT_SECS: u64 = 5;

/// Packet type.
#[derive(Debug, Clone, Copy, PartialEq, Eq)]
pub enum PacketType {
    HandshakeInit,
    HandshakeReply,
    Fragment,
    Dissolve,
}

/// The wire code of a packet type.
pub open spec fn packet_type_code(t: PacketType) -> u8 {
    match t {
        PacketType::HandshakeInit => 0x01,
        PacketType::HandshakeReply => 0x02,
        PacketType::Fragment => 0x03,
        PacketType::Dissolve => 0xFF,
    }
}

impl PacketType {
    /// The wire code of this packet type.
    pub fn code(&self) -> (r: u8)
        ensures
            r == packet_type_code(*self),
    {
        match self {
            PacketType::HandshakeInit => 0x01,
            PacketType::HandshakeReply => 0x02,
            PacketType::Fragment => 0x03,
            PacketType::Dissolve => 0xFF,
        }
    }
}

/// Common header present in every packet.
#[derive(Debug, Clone)]
pub struct PacketHeader {
    /// Must equal `PROTOCOL_VERSION`.
    pub version: u8,
    /// The packet's type.
    pub packet_type: PacketType,
    /// The session the packet belongs to (not secret).
    pub session_id: SessionId,
}

/// The error for a packet of another protocol version.
pub open spec fn version_mismatch(e: PolygoneError, version: u8) -> bool {
    e matches PolygoneError::InvalidTransition { from, to }
        && from@ == "protocol v"@ + decimal(version as nat)
        && to@ == "protocol v"@ + decimal(PROTOCOL_VERSION as nat)
}

impl PacketHeader {
    /// A header with the current protocol version.
    pub fn new(packet_type: PacketType, session_id: SessionId) -> (r: Self)
        ensures
            r.version == PROTOCOL_VERSION,
            r.packet_type == packet_type,
            r.session_id == session_id,
    {
        PacketHeader { version: PROTOCOL_VERSION, packet_type, session_id }
    }

    /// Accepts exactly the current protocol version.
    pub fn validate_version(&self) -> (r: Result<()>)
        ensures
            r is Ok <==> self.version == PROTOCOL_VERSION,
            r matches Err(e) ==> version_mismatch(e, self.version),
    {
        if self.version != PROTOCOL_VERSION {
            let from = format_number("protocol v", self.version as u64, "");
            let to = format_number("protocol v", PROTOCOL_VERSION as u64, "");
            proof {
                reveal_strlit("protocol v");
                reveal_strlit("");
                assert(from@ =~= "protocol v"@ + decimal(self.version as nat));
                assert(to@ =~= "protocol v"@ + decimal(PROTOCOL_VERSION as nat));
            }
            return Err(PolygoneError::InvalidTransition { from, to });
        }
        Ok(())
    }
}

/// Handshake initiation: Alice to Bob, through the network.
#[derive(Debug, Clone)]
pub struct HandshakeInit {
    pub header: PacketHeader,
    /// ML-KEM-1024 ciphertext.
    pub kem_ciphertext: Vec<u8>,
    /// Alice's signing public key (carried, not yet verified).
    pub alice_sign_pk: Vec<u8>,
    /// Unix time (seconds) at which the packet was made.
    pub timestamp_secs: u64,
    /// Random 16 bytes that make each handshake unique.
    pub nonce: [u8; 16],
}

/// Whether a handshake made at `timestamp` is accepted at `now`: no older
/// than the replay window and no further ahead than the allowed drift.
pub open spec fn replay_accepted(timestamp: u64, now: u64) -> bool {
    timestamp + REPLAY_WINDOW_SECS >= now && timestamp <= now + MAX_FUTURE_DRIFT_SECS
}

/// The replay check at a given time: too old first, then too far ahead.
pub fn check_replay(timestamp_secs: u64, now: u64) -> (r: Result<()>)
    ensures
        r is Ok <==> replay_accepted(timestamp_secs, now),
        r matches Err(e) ==> (e matches PolygoneError::InvalidTransition { from, to } && (
            (now > timestamp_secs + REPLAY_WINDOW_SECS
                && from@ == "handshake timestamp "@ + decimal((now - timestamp_secs) as nat) + "s ago"@
                && to@ == "rejected — outside replay window"@)
            || (now <= timestamp_secs + REPLAY_WINDOW_SECS
                && timestamp_secs > now + MAX_FUTURE_DRIFT_SECS
                && from@ == "handshake timestamp "@ + decimal((timestamp_secs - now) as nat) + "s in future"@
                && to@ == "rejected — clock skew too large"@))),
{
    let age = now.saturating_sub(timestamp_secs);
    let future_drift = timestamp_secs.saturating_sub(now);
    proof {
        reveal_strlit("handshake timestamp ");
        reveal_strlit("s ago");
        reveal_strlit("s in future");
        reveal_strlit("rejected — outside replay window");
        reveal_strlit("rejected — clock skew too large");
    }
    if age > REPLAY_WINDOW_SECS {
        let from = format_number("handshake timestamp ", age, "s ago");
        return Err(PolygoneError::InvalidTransition { from, to: "rejected — outside replay window".to_string() });
    }
    if future_drift > MAX_FUTURE_DRIFT_SECS {
        let from = format_number("handshake timestamp ", future_drift, "s in future");
        return Err(PolygoneError::InvalidTransition { from, to: "rejected — clock skew too large".to_string() });
    }
    Ok(())
}

impl HandshakeInit {
    /// A new handshake stamped with the current time and a fresh random
    /// nonce. A clock before 1970 or a failing random source is reported
    /// as `RngError`.
    pub fn new(session_id: SessionId, kem_ciphertext: Vec<u8>, alice_sign_pk: Vec<u8>) -> (r: Result<Self>)
        ensures
            r matches Ok(h) ==> h.header.version == PROTOCOL_VERSION
                && h.header.packet_type == PacketType::HandshakeInit
                && h.header.session_id == session_id
                && h.kem_ciphertext@ == kem_ciphertext@
                && h.alice_sign_pk@ == alice_sign_pk@,
            r matches Err(e) ==> e is RngError,
    {
        let timestamp_secs = match time::unix_now_secs() {
            Ok(t) => t,
            Err(msg) => return Err(PolygoneError::RngError(msg)),
        };
        let mut nonce = [0u8; 16];
        if let Err(msg) = fill_random_16(&mut nonce) {
            return Err(PolygoneError::RngError(msg));
        }
        Ok(HandshakeInit {
            header: PacketHeader::new(PacketType::HandshakeInit, session_id),
            kem_ciphertext,
            alice_sign_pk,
            timestamp_secs,
            nonce,
        })
    }

    /// Check this packet against replays at the current time (see
    /// `check_replay`). A clock before 1970 is reported as `RngError`.
    pub fn validate_replay(&self) -> (r: Result<()>)
        ensures
            r matches Err(e) ==> e is RngError || e is InvalidTransition,
    {
        let now = match time::unix_now_secs() {
            Ok(t) => t,
            Err(msg) => return Err(PolygoneError::RngError(msg)),
        };
        check_replay(self.timestamp_secs, now)
    }
}

/// Handshake reply: Bob to Alice; the session is now established.
#[derive(Debug, Clone)]
pub struct HandshakeReply {
    pub header: PacketHeader,
    /// Bob's signing public key.
    pub bob_sign_pk: Vec<u8>,
}

/// One fragment in transit.
#[derive(Debug, Clone)]
pub struct FragmentPacket {
    pub header: PacketHeader,
    /// Index of this fragment (1-based).
    pub fragment_index: u8,
    /// The fragment's bytes.
    pub data: Vec<u8>,
}

/// Session dissolution signal.
#[derive(Debug, Clone)]
pub struct DissolvePacket {
    pub header: PacketHeader,
}

} // verus!
