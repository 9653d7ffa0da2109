//! Unified error type.

use vstd::prelude::*;

verus! {

/// Every error that the library reports.
#[derive(Debug, Clone, PartialEq, Eq)]
pub enum PolygoneError {
    // ── Crypto ──────────────────────────────────────────────────────────
    KemKeyGen,
    KemEncapsulate,
    KemDecapsulate,
    AeadError(String),
    ShamirSplit(String),
    ShamirReconstruct(String),
    SignatureError(String),
    SignatureInvalid,
    RngError(String),
    // ── Protocol ────────────────────────────────────────────────────────
    InvalidTransition { from: String, to: String },
    TopologyDerivation(String),
    ReassemblyFailed { missing: usize },
    SessionExpired,
    // ── I/O ─────────────────────────────────────────────────────────────
    KeyFile(String),
    Serialization(String),
    Io(String),
    // ── Network ─────────────────────────────────────────────────────────
    Network(String),
    // ── Generic ─────────────────────────────────────────────────────────
    InvalidArgument(String),
    NotImplemented(String),
}

/// Result type of the library.
pub type Result<T> = core::result::Result<T, PolygoneError>;

/// Alias kept for callers that name it this way.
pub type PolyResult<T> = core::result::Result<T, PolygoneError>;

/// The hint shown to a user for an error.
pub open spec fn hint_text(e: PolygoneError) -> Seq<char> {
    match e {
        PolygoneError::KemDecapsulate =>
            "Check that the ciphertext and secret key correspond to the same session."@,
        PolygoneError::ReassemblyFailed { .. } =>
            "At least 4 of 7 fragments are required to reconstruct."@,
        PolygoneError::AeadError(_) => "Decryption failed — key mismatch or data corruption."@,
        PolygoneError::KeyFile(_) => "Run `polygone keygen` first to generate your keypair."@,
        PolygoneError::SessionExpired => "Sessions expire after 30 seconds. Start a new one."@,
        _ => "See `polygone --help` for usage."@,
    }
}

impl PolygoneError {
    /// Human-readable hint for the TUI.
    pub fn hint(&self) -> (r: &'static str)
        ensures
            r@ == hint_text(*self),
    {
        match self {
            PolygoneError::KemDecapsulate =>
                "Check that the ciphertext and secret key correspond to the same session.",
            PolygoneError::ReassemblyFailed { .. } =>
                "At least 4 of 7 fragments are required to reconstruct.",
            PolygoneError::AeadError(_) => "Decryption failed — key mismatch or data corruption.",
            PolygoneError::KeyFile(_) => "Run `polygone keygen` first to generate your keypair.",
            PolygoneError::SessionExpired => "Sessions expire after 30 seconds. Start a new one.",
            _ => "See `polygone --help` for usage.",
        }
    }
}

} // verus!
