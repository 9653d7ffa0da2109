//! # polygone
//!
//! Post-quantum ephemeral privacy network.
//!
//! A message becomes distributed computational state across ephemeral
//! relay nodes whose identities and connections both peers derive from a
//! shared secret. The nodes dissolve and the keys are zeroed afterwards.
//!
//! This crate holds the protocol's logic with its contracts: the wire
//! packets, the session state machine, the topology derivation, the
//! ephemeral node lifecycle, the erasure coding of the drive, and the
//! bookkeeping of the server side (quotas, registry, storage).

pub mod error;
pub mod drive;

pub use error::{PolygoneError, PolyResult, Result};
pub use crypto::{KeyPair, SharedSecret};
pub use network::NodeId;
pub use network::topology::{Topology, TopologyParams};
pub use protocol::session::Session;
pub mod crypto;
pub mod network;
pub mod time;
pub mod tui;
pub mod fmt;
pub mod keys;
pub mod packet;
pub mod protocol;
pub mod security;
pub mod server;
pub mod setup;
pub mod table;
pub mod text;

use vstd::prelude::*;

verus! {

/// The crate's version.
pub const VERSION: &'static str = "1.0.0";

} // verus!
