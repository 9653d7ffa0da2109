//! Session lifecycle: initiation, establishment and dissolution.
//!
//! ```text
//! Session::new_initiator(peer_pk)  ->  (session, ciphertext)   Alice
//! Session::new_responder(kp, ct)   ->  session                 Bob
//! session.establish(params)        ->  topology + session key
//! session.dissolve()               ->  keying material dropped
//! ```

use vstd::prelude::*;
use crate::crypto::{KeyPair, SharedSecret, blake3_derive_key, topology_label, session_key_label};
use crate::crypto::kem::{self, encapsulated_toward, KemCiphertext, KemPublicKey};
use crate::crypto::secure_types::SessionKey;
use crate::error::{PolygoneError, Result};
use crate::network::{EphemeralNode, NodeState, Topology, TopologyParams};
use crate::network::node::remaining_after;
use crate::network::topology::derived_from;
use crate::protocol::{SessionId, TransitState, transit_state_name};
use crate::time;

verus! {

/// Default maximum session lifetime, in seconds.
pub const DEFAULT_SESSION_TTL_SECS: u64 = 30;
/// Default node lifetime, in seconds.
pub const DEFAULT_NODE_TTL_SECS: u64 = 30;

/// A session.
pub struct Session {
    pub id: SessionId,
    pub state: TransitState,
    keypair: KeyPair,
    shared_secret: Option<SharedSecret>,
    session_key: Option<SessionKey>,
    pub topology: Option<Topology>,
    nodes: Vec<EphemeralNode>,
    born_at: std::time::Instant,
    ttl_nanos: u128,
}

/// How many of `nodes` have not expired, the i-th having been alive for
/// `elapsed[i]` nanoseconds.
pub open spec fn count_unexpired(nodes: Seq<EphemeralNode>, elapsed: Seq<u128>) -> nat
    decreases nodes.len(),
{
    if nodes.len() == 0 || elapsed.len() < nodes.len() {
        0
    } else {
        let i = nodes.len() - 1;
        count_unexpired(nodes.drop_last(), elapsed)
            + if nodes[i].expired_at(elapsed[i] as int) { 0nat } else { 1nat }
    }
}

/// How many of `nodes` have a positive time-to-live.
pub open spec fn count_with_lifetime(nodes: Seq<EphemeralNode>) -> nat
    decreases nodes.len(),
{
    if nodes.len() == 0 {
        0
    } else {
        count_with_lifetime(nodes.drop_last())
            + if nodes.last().ttl_nanos() > 0 { 1nat } else { 0nat }
    }
}

/// Whether two states are of the same kind.
pub open spec fn same_kind(a: TransitState, b: TransitState) -> bool {
    match (a, b) {
        (TransitState::Pending, TransitState::Pending) => true,
        (TransitState::Established, TransitState::Established) => true,
        (TransitState::InTransit { .. }, TransitState::InTransit { .. }) => true,
        (TransitState::Completed, TransitState::Completed) => true,
        (TransitState::Dissolved, TransitState::Dissolved) => true,
        _ => false,
    }
}

/// The error for an operation refused in the current state.
pub open spec fn refused_in(e: PolygoneError, state: TransitState, op: Seq<char>) -> bool {
    e matches PolygoneError::InvalidTransition { from, to }
        && from@ == transit_state_name(state) && to@ == op
}

/// The parameters that `establish` uses.
pub open spec fn params_or_default(p: Option<TopologyParams>) -> TopologyParams {
    match p {
        Some(p) => p,
        None => TopologyParams { node_count: 7, threshold: 4, max_edges_per_node: 3 },
    }
}

/// `after` is `before` established with `params`: `before` was pending
/// with a secret `ss`; `after` is `Established`, has consumed the secret,
/// holds the key and the topology derived from `ss`, and one live relay
/// node per topology node.
pub open spec fn established_from(before: Session, after: Session, params: Option<TopologyParams>) -> bool {
    &&& before.state_of() is Pending
    &&& before.pending_secret() matches Some(ss)
    &&& after.state_of() == TransitState::Established
    &&& after.pending_secret() is None
    &&& after.key() == Some(blake3_derive_key(session_key_label(), ss))
    &&& after.topology_of() matches Some(t)
    &&& derived_from(t, blake3_derive_key(topology_label(), ss), params_or_default(params))
    &&& after.relay_nodes().len() == params_or_default(params).node_count
    &&& forall|i: int| 0 <= i < after.relay_nodes().len() ==> {
            &&& (#[trigger] after.relay_nodes()[i]).node_id() == t.nodes@[i]
            &&& after.relay_nodes()[i].node_state() == NodeState::Active
            &&& after.relay_nodes()[i].ttl_nanos() == DEFAULT_NODE_TTL_SECS * 1_000_000_000
        }
}

impl Session {
    /// The state.
    pub closed spec fn state_of(&self) -> TransitState {
        self.state
    }

    /// The shared secret not yet consumed, if any.
    pub closed spec fn pending_secret(&self) -> Option<Seq<u8>> {
        match self.shared_secret {
            Some(s) => Some(s.0@),
            None => None,
        }
    }

    /// The session key, once derived.
    pub closed spec fn key(&self) -> Option<Seq<u8>> {
        match self.session_key {
            Some(k) => Some(k@),
            None => None,
        }
    }

    /// The topology, once derived.
    pub closed spec fn topology_of(&self) -> Option<Topology> {
        self.topology
    }

    /// The live relay nodes.
    pub closed spec fn relay_nodes(&self) -> Seq<EphemeralNode> {
        self.nodes@
    }

    /// The session's own KEM public key.
    pub closed spec fn own_kem_pk(&self) -> Seq<u8> {
        self.keypair.kem_pk@
    }

    /// The session's lifetime, in nanoseconds.
    pub closed spec fn session_ttl_nanos(&self) -> nat {
        self.ttl_nanos as nat
    }

    /// Every relay node keeps its structural invariant.
    pub closed spec fn wf(&self) -> bool {
        forall|i: int| 0 <= i < self.nodes@.len() ==> (#[trigger] self.nodes@[i]).wf()
    }

    /// A pending session holding `shared_secret`.
    fn build(keypair: KeyPair, shared_secret: SharedSecret) -> (r: Result<Session>)
        ensures
            r matches Ok(s) ==> s.wf() && s.state_of() == TransitState::Pending
                && s.pending_secret() == Some(shared_secret.0@) && s.key() is None
                && s.topology_of() is None && s.relay_nodes().len() == 0
                && s.own_kem_pk() == keypair.kem_pk@
                && s.session_ttl_nanos() == DEFAULT_SESSION_TTL_SECS * 1_000_000_000,
            r matches Err(e) ==> e is RngError,
    {
        let id = match SessionId::generate() {
            Ok(id) => id,
            Err(e) => return Err(e),
        };
        Ok(Session {
            id,
            state: TransitState::Pending,
            keypair,
            shared_secret: Some(shared_secret),
            session_key: None,
            topology: None,
            nodes: Vec::new(),
            born_at: time::now(),
            ttl_nanos: (DEFAULT_SESSION_TTL_SECS as u128) * 1_000_000_000,
        })
    }

    /// Create a session as the initiator: encapsulate a fresh shared
    /// secret toward `peer_pk`. Returns the session and the ciphertext to
    /// send to the responder out of band.
    pub fn new_initiator(peer_pk: &KemPublicKey) -> (r: Result<(Session, KemCiphertext)>)
        ensures
            r matches Ok((s, ct)) ==> s.wf() && s.state_of() == TransitState::Pending
                && s.key() is None && s.topology_of() is None && s.relay_nodes().len() == 0
                && s.session_ttl_nanos() == DEFAULT_SESSION_TTL_SECS * 1_000_000_000
                && (s.pending_secret() matches Some(ss) && encapsulated_toward(peer_pk@, ct@, ss)),
            r matches Err(e) ==> e is RngError,
    {
        let keypair = match KeyPair::generate() {
            Ok(kp) => kp,
            Err(e) => return Err(e),
        };
        let (ciphertext, shared_secret) = match kem::encapsulate(peer_pk) {
            Ok(p) => p,
            Err(e) => return Err(e),
        };
        match Self::build(keypair, shared_secret) {
            Ok(s) => Ok((s, ciphertext)),
            Err(e) => Err(e),
        }
    }

    /// Create a session as the responder: decapsulate `ciphertext` with
    /// our secret key to recover the initiator's shared secret.
    pub fn new_responder(keypair: KeyPair, ciphertext: &KemCiphertext) -> (r: Result<Session>)
        ensures
            r matches Ok(s) ==> s.wf() && s.state_of() == TransitState::Pending
                && s.pending_secret() == Some(kem::mlkem_decapsulate(keypair.kem_sk@, ciphertext@))
                && s.key() is None && s.topology_of() is None && s.relay_nodes().len() == 0
                && s.own_kem_pk() == keypair.kem_pk@
                && s.session_ttl_nanos() == DEFAULT_SESSION_TTL_SECS * 1_000_000_000,
            r matches Err(e) ==> e is RngError,
    {
        let shared_secret = match kem::decapsulate(&keypair.kem_sk, ciphertext) {
            Ok(ss) => ss,
            Err(e) => return Err(e),
        };
        Self::build(keypair, shared_secret)
    }

    /// Establish the session, reading its age from the clock; see
    /// `establish_at`, which decides with the reading. A pending session
    /// with its secret and consistent parameters is established unless its
    /// lifetime has passed.
    pub fn establish(&mut self, params: Option<TopologyParams>) -> (r: Result<()>)
        requires
            old(self).wf(),
            params matches Some(p) ==> (p.threshold > p.node_count || p.node_count == 0 || p.max_edges_per_node <= 32),
        ensures
            final(self).wf(),
            !(old(self).state_of() is Pending) ==> (r matches Err(e) && refused_in(e, old(self).state_of(), "establish"@)),
            r is Ok ==> established_from(*old(self), *final(self), params),
            r matches Err(e) ==> (e is InvalidTransition || e is SessionExpired || e is TopologyDerivation),
            r is Err ==> final(self).state_of() == old(self).state_of()
                && final(self).key() == old(self).key()
                && final(self).topology_of() == old(self).topology_of()
                && final(self).relay_nodes() == old(self).relay_nodes(),
            final(self).session_ttl_nanos() == old(self).session_ttl_nanos(),
            old(self).state_of() is Pending && old(self).pending_secret() is Some
                && params_or_default(params).threshold <= params_or_default(params).node_count
                ==> (r is Ok || r == Err::<(), PolygoneError>(PolygoneError::SessionExpired)),
    {
        let elapsed = time::elapsed_nanos(&self.born_at);
        self.establish_at(params, elapsed)
    }

    /// Derive the topology and the session key from the shared secret,
    /// consuming the secret, once `elapsed` nanoseconds have passed since
    /// the session was created; the session moves to `Established` with
    /// one live relay node per topology node.
    ///
    /// Refused, in this order: unless the session is `Pending`; when its
    /// lifetime has passed (`SessionExpired`); when the secret was already
    /// consumed; when the threshold exceeds the node count.
    pub fn establish_at(&mut self, params: Option<TopologyParams>, elapsed: u128) -> (r: Result<()>)
        requires
            old(self).wf(),
            params matches Some(p) ==> (p.threshold > p.node_count || p.node_count == 0 || p.max_edges_per_node <= 32),
        ensures
            final(self).wf(),
            !(old(self).state_of() is Pending) ==> (r matches Err(e) && refused_in(e, old(self).state_of(), "establish"@)),
            r is Ok ==> established_from(*old(self), *final(self), params),
            r matches Err(e) ==> (e is InvalidTransition || e is SessionExpired || e is TopologyDerivation),
            r is Err ==> final(self).state_of() == old(self).state_of()
                && final(self).key() == old(self).key()
                && final(self).topology_of() == old(self).topology_of()
                && final(self).relay_nodes() == old(self).relay_nodes(),
            final(self).session_ttl_nanos() == old(self).session_ttl_nanos(),
            old(self).state_of() is Pending && old(self).pending_secret() is Some
                && params_or_default(params).threshold <= params_or_default(params).node_count
                ==> (r is Ok || r == Err::<(), PolygoneError>(PolygoneError::SessionExpired)),
            r is Ok <==> (old(self).state_of() is Pending && old(self).pending_secret() is Some
                && elapsed < old(self).session_ttl_nanos()
                && params_or_default(params).threshold <= params_or_default(params).node_count),
            old(self).state_of() is Pending && elapsed >= old(self).session_ttl_nanos()
                ==> r == Err::<(), PolygoneError>(PolygoneError::SessionExpired),
            old(self).state_of() is Pending && elapsed < old(self).session_ttl_nanos() && old(self).pending_secret() is None
                ==> (r matches Err(PolygoneError::InvalidTransition { from, to })
                    && from@ == "no shared secret"@ && to@ == "Established"@),
            old(self).state_of() is Pending && elapsed < old(self).session_ttl_nanos() && old(self).pending_secret() is Some
                && params_or_default(params).threshold > params_or_default(params).node_count
                ==> (r matches Err(e) && e is TopologyDerivation),
    {
        if let Err(e) = self.assert_state(&TransitState::Pending, "establish") {
            return Err(e);
        }
        if let Err(e) = self.check_ttl_at(elapsed) {
            return Err(e);
        }
        proof { reveal_strlit("no shared secret"); reveal_strlit("Established"); }
        let ss = match self.shared_secret.take() {
            Some(ss) => ss,
            None => {
                return Err(PolygoneError::InvalidTransition {
                    from: "no shared secret".to_string(),
                    to: "Established".to_string(),
                });
            },
        };
        let (topo_seed, key_bytes) = ss.derive();
        let params = match params {
            Some(p) => p,
            None => TopologyParams::default(),
        };
        let topology = match Topology::derive(&topo_seed, params) {
            Ok(t) => t,
            Err(e) => return Err(e),
        };
        let mut nodes: Vec<EphemeralNode> = Vec::new();
        let mut i: usize = 0;
        while i < topology.nodes.len()
            invariant
                i <= topology.nodes@.len(),
                nodes@.len() == i,
                forall|k: int| 0 <= k < i ==> {
                    &&& (#[trigger] nodes@[k]).wf()
                    &&& nodes@[k].node_id() == topology.nodes@[k]
                    &&& nodes@[k].node_state() == NodeState::Active
                    &&& nodes@[k].ttl_nanos() == DEFAULT_NODE_TTL_SECS * 1_000_000_000
                },
            decreases topology.nodes.len() - i,
        {
            nodes.push(EphemeralNode::new(topology.nodes[i], (DEFAULT_NODE_TTL_SECS as u128) * 1_000_000_000));
            i = i + 1;
        }
        let mut key: Vec<u8> = Vec::new();
        let mut k: usize = 0;
        while k < 32
            invariant
                k <= 32,
                key@ == key_bytes@.take(k as int),
            decreases 32 - k,
        {
            key.push(key_bytes[k]);
            k = k + 1;
            assert(key@ =~= key_bytes@.take(k as int));
        }
        assert(key_bytes@.take(32) =~= key_bytes@);
        self.topology = Some(topology);
        self.nodes = nodes;
        self.session_key = Some(SessionKey::from_bytes(key));
        self.state = TransitState::Established;
        Ok(())
    }

    /// Dissolve the session: every relay node dissolves, the nodes, the
    /// session key, the shared secret and the topology are dropped, and
    /// the session is `Dissolved` for good.
    pub fn dissolve(&mut self)
        requires
            old(self).wf(),
        ensures
            final(self).wf(),
            final(self).state_of() == TransitState::Dissolved,
            final(self).relay_nodes().len() == 0,
            final(self).key() is None,
            final(self).pending_secret() is None,
            final(self).topology_of() is None,
    {
        let mut i: usize = 0;
        while i < self.nodes.len()
            invariant
                i <= self.nodes@.len(),
                forall|k: int| 0 <= k < self.nodes@.len() ==> (#[trigger] self.nodes@[k]).wf(),
            decreases self.nodes.len() - i,
        {
            let mut node = self.nodes.remove(i);
            node.dissolve();
            self.nodes.insert(i, node);
            i = i + 1;
        }
        self.nodes.clear();
        self.session_key = None;
        self.shared_secret = None;
        self.topology = None;
        self.state = TransitState::Dissolved;
    }

    /// Time elapsed since the session was created (read from the clock).
    pub fn age(&self) -> std::time::Duration {
        time::elapsed(&self.born_at)
    }

    /// Nanoseconds left before the session expires, once `elapsed`
    /// nanoseconds have passed since it was created: its lifetime less
    /// `elapsed`, floored at zero.
    pub fn remaining_at(&self, elapsed: u128) -> (r: u128)
        ensures
            r == remaining_after(self.session_ttl_nanos() as int, elapsed as int),
    {
        if elapsed >= self.ttl_nanos {
            0
        } else {
            self.ttl_nanos - elapsed
        }
    }

    /// Nanoseconds left before the session expires (read from the clock);
    /// see `remaining_at`. Never more than the session's lifetime.
    pub fn time_remaining(&self) -> (r: u128)
        ensures
            r <= self.session_ttl_nanos(),
    {
        self.remaining_at(time::elapsed_nanos(&self.born_at))
    }

    /// How many relay nodes have not expired, the i-th having been alive
    /// for `elapsed[i]` nanoseconds.
    pub fn active_count_at(&self, elapsed: &Vec<u128>) -> (r: usize)
        requires
            elapsed@.len() == self.relay_nodes().len(),
        ensures
            r == count_unexpired(self.relay_nodes(), elapsed@),
    {
        let mut count: usize = 0;
        let mut i: usize = 0;
        while i < self.nodes.len()
            invariant
                i <= self.nodes@.len(),
                elapsed@.len() == self.nodes@.len(),
                count == count_unexpired(self.nodes@.take(i as int), elapsed@),
                count <= i,
            decreases self.nodes.len() - i,
        {
            assert(self.nodes@.take(i as int + 1).drop_last() =~= self.nodes@.take(i as int));
            if !self.nodes[i].is_expired_at(elapsed[i]) {
                count = count + 1;
            }
            i = i + 1;
        }
        assert(self.nodes@.take(i as int) =~= self.nodes@);
        count
    }

    /// Number of relay nodes whose lifetime has not passed, each read from
    /// the clock; see `active_count_at`. Nodes whose time-to-live is zero
    /// are never counted.
    pub fn active_node_count(&self) -> (r: usize)
        ensures
            r <= count_with_lifetime(self.relay_nodes()),
    {
        let mut readings: Vec<u128> = Vec::new();
        let mut i: usize = 0;
        while i < self.nodes.len()
            invariant
                i <= self.nodes@.len(),
                readings@.len() == i,
            decreases self.nodes.len() - i,
        {
            readings.push(self.nodes[i].elapsed_nanos());
            i = i + 1;
        }
        let r = self.active_count_at(&readings);
        proof {
            lemma_unexpired_within_lifetime(self.nodes@, readings@);
        }
        r
    }

    /// The session's own KEM public key.
    pub fn kem_pk(&self) -> (r: &KemPublicKey)
        ensures
            r@ == self.own_kem_pk(),
    {
        &self.keypair.kem_pk
    }

    /// `SessionExpired` exactly when the session's lifetime has passed
    /// once `elapsed` nanoseconds have gone by since it was created.
    pub fn check_ttl_at(&self, elapsed: u128) -> (r: Result<()>)
        ensures
            r is Err <==> elapsed >= self.session_ttl_nanos(),
            r matches Err(e) ==> e is SessionExpired,
    {
        if elapsed >= self.ttl_nanos {
            Err(PolygoneError::SessionExpired)
        } else {
            Ok(())
        }
    }

    /// Refuses unless the state is of the same kind as `expected`.
    fn assert_state(&self, expected: &TransitState, op: &str) -> (r: Result<()>)
        ensures
            r is Ok <==> same_kind(self.state_of(), *expected),
            r matches Err(e) ==> refused_in(e, self.state_of(), op@),
    {
        let same = match (&self.state, expected) {
            (TransitState::Pending, TransitState::Pending) => true,
            (TransitState::Established, TransitState::Established) => true,
            (TransitState::InTransit { .. }, TransitState::InTransit { .. }) => true,
            (TransitState::Completed, TransitState::Completed) => true,
            (TransitState::Dissolved, TransitState::Dissolved) => true,
            _ => false,
        };
        if !same {
            return Err(PolygoneError::InvalidTransition {
                from: self.state.name().to_string(),
                to: op.to_string(),
            });
        }
        Ok(())
    }

    /// Refuses unless fragments may move: the session is `Established` or
    /// `InTransit`.
    pub fn assert_sendable(&self, op: &str) -> (r: Result<()>)
        ensures
            r is Ok <==> (self.state_of() is Established || self.state_of() is InTransit),
            r matches Err(e) ==> refused_in(e, self.state_of(), op@),
    {
        match self.state {
            TransitState::Established | TransitState::InTransit { .. } => Ok(()),
            _ => Err(PolygoneError::InvalidTransition {
                from: self.state.name().to_string(),
                to: op.to_string(),
            }),
        }
    }
}

/// Nodes with no lifetime are never counted as unexpired.
pub proof fn lemma_unexpired_within_lifetime(nodes: Seq<EphemeralNode>, elapsed: Seq<u128>)
    ensures
        count_unexpired(nodes, elapsed) <= count_with_lifetime(nodes),
    decreases nodes.len(),
{
    if nodes.len() > 0 && elapsed.len() >= nodes.len() {
        lemma_unexpired_within_lifetime(nodes.drop_last(), elapsed);
    } else if nodes.len() > 0 {
        lemma_unexpired_within_lifetime(nodes.drop_last(), elapsed);
    }
}

/// Both peers of a session agree: two sessions established with equal
/// parameters from equal pending secrets hold equal session keys, and
/// topologies with the same nodes, adjacency lists and fragment
/// assignment, and relay nodes with the same identifiers.
pub proof fn law_peers_agree(a0: Session, a1: Session, b0: Session, b1: Session, params: Option<TopologyParams>)
    requires
        established_from(a0, a1, params),
        established_from(b0, b1, params),
        a0.pending_secret() == b0.pending_secret(),
    ensures
        a1.key() == b1.key(),
        a1.topology_of() matches Some(ta) && b1.topology_of() matches Some(tb) && {
            &&& ta.nodes@.len() == tb.nodes@.len()
            &&& (forall|i: int| 0 <= i < ta.nodes@.len() ==> (#[trigger] ta.nodes@[i]).0@ == tb.nodes@[i].0@)
            &&& ta.edges@.len() == tb.edges@.len()
            &&& (forall|k: int| 0 <= k < ta.edges@.len() ==> (#[trigger] ta.edges@[k])@ == tb.edges@[k]@)
            &&& ta.fragment_assignment@ == tb.fragment_assignment@
        },
        a1.relay_nodes().len() == b1.relay_nodes().len(),
        forall|i: int| 0 <= i < a1.relay_nodes().len() ==>
            (#[trigger] a1.relay_nodes()[i]).node_id().0@ == b1.relay_nodes()[i].node_id().0@,
{
    let ss = a0.pending_secret()->0;
    let ta = a1.topology_of()->0;
    let tb = b1.topology_of()->0;
    crate::network::topology::law_topology_is_deterministic(ta, tb, blake3_derive_key(topology_label(), ss),
        params_or_default(params));
    assert forall|i: int| 0 <= i < a1.relay_nodes().len() implies
        (#[trigger] a1.relay_nodes()[i]).node_id().0@ == b1.relay_nodes()[i].node_id().0@ by {
        assert(a1.relay_nodes()[i].node_id() == ta.nodes@[i]);
        assert(b1.relay_nodes()[i].node_id() == tb.nodes@[i]);
    }
}

} // verus!
