//! Ephemeral node lifecycle: a node holds at most one fragment for at
//! most its time-to-live (given in nanoseconds), then dissolves and wipes
//! what it held.

use vstd::prelude::*;
use super::NodeId;
use crate::time;

verus! {

/// The lifecycle state of an ephemeral node.
#[derive(Clone, Copy, Debug, PartialEq, Eq, Structural)]
pub enum NodeState {
    /// Alive; can receive and hold a fragment.
    Active,
    /// Dissolved; holds nothing.
    Dissolved,
}

/// Calls `Zeroize::zeroize` on a byte vector: every byte is overwritten
/// with zero and the length is set to zero.
#[verifier::external_body]
fn wipe(data: &mut Vec<u8>)
    ensures
        final(data)@.len() == 0,
{
    zeroize::Zeroize::zeroize(data)
}

/// The bytes of an optional buffer.
pub open spec fn bytes_of(o: Option<Vec<u8>>) -> Option<Seq<u8>> {
    match o {
        Some(v) => Some(v@),
        None => None,
    }
}

/// What is left of a lifetime of `ttl` once `elapsed` has passed, floored
/// at zero.
pub open spec fn remaining_after(ttl: int, elapsed: int) -> int {
    if elapsed >= ttl { 0 } else { ttl - elapsed }
}

/// An ephemeral relay node. Its lifetime is kept in nanoseconds, as are
/// the clock readings that decide its expiry.
pub struct EphemeralNode {
    pub id: NodeId,
    pub state: NodeState,
    fragment: Option<Vec<u8>>,
    born_at: std::time::Instant,
    ttl_nanos: u128,
}

impl EphemeralNode {
    /// The fragment held, if any.
    pub closed spec fn held(&self) -> Option<Seq<u8>> {
        match self.fragment {
            Some(v) => Some(v@),
            None => None,
        }
    }

    /// The node's identifier (the public field `id`).
    pub closed spec fn node_id(&self) -> NodeId {
        self.id
    }

    /// The node's lifecycle state (the public field `state`).
    pub closed spec fn node_state(&self) -> NodeState {
        self.state
    }

    /// The node's time-to-live, in nanoseconds.
    pub closed spec fn ttl_nanos(&self) -> nat {
        self.ttl_nanos as nat
    }

    /// Whether the time-to-live has passed once `elapsed` nanoseconds have
    /// gone by since the node was created.
    pub open spec fn expired_at(&self, elapsed: int) -> bool {
        elapsed >= self.ttl_nanos()
    }

    /// The node's structural invariant: a dissolved node holds nothing.
    pub closed spec fn wf(&self) -> bool {
        self.node_state() == NodeState::Dissolved ==> self.fragment is None
    }

    /// A new active node, holding nothing, that lives for `ttl_nanos`
    /// nanoseconds (every `Duration` is a whole number of nanoseconds and
    /// fits here, as `Duration::as_nanos` gives it).
    pub fn new(id: NodeId, ttl_nanos: u128) -> (r: Self)
        ensures
            r.node_id() == id,
            r.node_state() == NodeState::Active,
            r.held() is None,
            r.ttl_nanos() == ttl_nanos,
            r.wf(),
    {
        EphemeralNode { id, state: NodeState::Active, fragment: None, born_at: time::now(), ttl_nanos }
    }

    /// Nanoseconds passed since the node was created (read from the clock).
    pub fn elapsed_nanos(&self) -> u128 {
        time::elapsed_nanos(&self.born_at)
    }

    /// Deposit a fragment. Refused when the node is dissolved or already
    /// holds one; otherwise the node holds `data`.
    pub fn deposit(&mut self, data: Vec<u8>) -> (r: core::result::Result<(), &'static str>)
        requires
            old(self).wf(),
        ensures
            final(self).wf(),
            final(self).node_id() == old(self).node_id(),
            final(self).node_state() == old(self).node_state(),
            final(self).ttl_nanos() == old(self).ttl_nanos(),
            match r {
                Err(e) => {
                    &&& final(self).held() == old(self).held()
                    &&& (old(self).node_state() == NodeState::Dissolved ==> e@ == "node already dissolved"@)
                    &&& (old(self).node_state() == NodeState::Active ==> old(self).held() is Some
                        && e@ == "node already holds a fragment"@)
                },
                Ok(()) => old(self).node_state() == NodeState::Active && old(self).held() is None
                    && final(self).held() == Some(data@),
            },
    {
        if self.state == NodeState::Dissolved {
            return Err("node already dissolved");
        }
        if self.fragment.is_some() {
            return Err("node already holds a fragment");
        }
        self.fragment = Some(data);
        Ok(())
    }

    /// Collect the fragment, taking it out of the node, given that
    /// `elapsed` nanoseconds have passed since the node was created. Once
    /// the time-to-live has passed the node dissolves first, wiping what it
    /// held, and nothing comes back; before that the fragment comes back
    /// and the state is unchanged. Either way the node holds nothing after.
    pub fn collect_at(&mut self, elapsed: u128) -> (r: Option<Vec<u8>>)
        requires
            old(self).wf(),
        ensures
            final(self).wf(),
            final(self).node_id() == old(self).node_id(),
            final(self).ttl_nanos() == old(self).ttl_nanos(),
            final(self).held() is None,
            old(self).expired_at(elapsed as int) ==> r is None
                && final(self).node_state() == NodeState::Dissolved,
            !old(self).expired_at(elapsed as int) ==> bytes_of(r) == old(self).held()
                && final(self).node_state() == old(self).node_state(),
    {
        self.check_ttl_at(elapsed);
        self.fragment.take()
    }

    /// Collect the fragment, reading the time passed from the clock; see
    /// `collect_at`. A node whose time-to-live is zero always dissolves
    /// here.
    pub fn collect(&mut self) -> (r: Option<Vec<u8>>)
        requires
            old(self).wf(),
        ensures
            final(self).wf(),
            final(self).node_id() == old(self).node_id(),
            final(self).ttl_nanos() == old(self).ttl_nanos(),
            final(self).held() is None,
            (r is None && final(self).node_state() == NodeState::Dissolved)
                || (bytes_of(r) == old(self).held() && final(self).node_state() == old(self).node_state()),
            old(self).ttl_nanos() == 0 ==> r is None && final(self).node_state() == NodeState::Dissolved,
    {
        let elapsed = time::elapsed_nanos(&self.born_at);
        self.collect_at(elapsed)
    }

    /// Dissolve the node if its time-to-live has passed once `elapsed`
    /// nanoseconds have gone by; otherwise nothing changes.
    pub fn check_ttl_at(&mut self, elapsed: u128)
        requires
            old(self).wf(),
        ensures
            final(self).wf(),
            final(self).node_id() == old(self).node_id(),
            final(self).ttl_nanos() == old(self).ttl_nanos(),
            old(self).expired_at(elapsed as int) ==> final(self).node_state() == NodeState::Dissolved
                && final(self).held() is None,
            !old(self).expired_at(elapsed as int) ==> final(self).node_state() == old(self).node_state()
                && final(self).held() == old(self).held(),
    {
        if self.is_expired_at(elapsed) {
            self.dissolve();
        }
    }

    /// Dissolve the node if its time-to-live has passed, reading the time
    /// from the clock; see `check_ttl_at`.
    pub fn check_ttl(&mut self)
        requires
            old(self).wf(),
        ensures
            final(self).wf(),
            final(self).node_id() == old(self).node_id(),
            final(self).ttl_nanos() == old(self).ttl_nanos(),
            (final(self).node_state() == NodeState::Dissolved && final(self).held() is None)
                || (final(self).node_state() == old(self).node_state() && final(self).held() == old(self).held()),
            old(self).ttl_nanos() == 0 ==> final(self).node_state() == NodeState::Dissolved
                && final(self).held() is None,
    {
        let elapsed = time::elapsed_nanos(&self.born_at);
        self.check_ttl_at(elapsed)
    }

    /// Whether the time-to-live has passed once `elapsed` nanoseconds have
    /// gone by.
    pub fn is_expired_at(&self, elapsed: u128) -> (r: bool)
        ensures
            r == self.expired_at(elapsed as int),
    {
        elapsed >= self.ttl_nanos
    }

    /// Whether the time-to-live has passed (read from the clock); see
    /// `is_expired_at`. It only reports: the node does not dissolve here.
    /// A node whose time-to-live is zero is always expired.
    pub fn is_expired(&self) -> (r: bool)
        ensures
            self.ttl_nanos() == 0 ==> r,
    {
        self.is_expired_at(time::elapsed_nanos(&self.born_at))
    }

    /// Dissolve the node: wipe the held fragment and mark it dissolved.
    pub fn dissolve(&mut self)
        ensures
            final(self).wf(),
            final(self).node_id() == old(self).node_id(),
            final(self).ttl_nanos() == old(self).ttl_nanos(),
            final(self).node_state() == NodeState::Dissolved,
            final(self).held() is None,
    {
        if let Some(mut data) = self.fragment.take() {
            wipe(&mut data);
        }
        self.state = NodeState::Dissolved;
    }

    /// Nanoseconds left before the time-to-live passes, once `elapsed`
    /// nanoseconds have gone by: the time-to-live less `elapsed`, floored
    /// at zero.
    pub fn remaining_at(&self, elapsed: u128) -> (r: u128)
        ensures
            r == remaining_after(self.ttl_nanos() as int, elapsed as int),
    {
        if elapsed >= self.ttl_nanos {
            0
        } else {
            self.ttl_nanos - elapsed
        }
    }

    /// Nanoseconds left before the time-to-live passes (read from the
    /// clock); see `remaining_at`. Never more than the time-to-live.
    pub fn time_remaining(&self) -> (r: u128)
        ensures
            r <= self.ttl_nanos(),
            self.ttl_nanos() == 0 ==> r == 0,
    {
        self.remaining_at(time::elapsed_nanos(&self.born_at))
    }

    /// One-character status for the TUI: a full disc when active, an
    /// empty one when dissolved.
    pub fn status_char(&self) -> (r: &'static str)
        ensures
            self.node_state() == NodeState::Active ==> r@ == "●"@,
            self.node_state() == NodeState::Dissolved ==> r@ == "○"@,
    {
        match self.state {
            NodeState::Active => "●",
            NodeState::Dissolved => "○",
        }
    }
}

/// Expiry is permanent: a node whose time-to-live has passed at one
/// reading of the clock has passed it at every later reading.
pub proof fn law_expiry_is_permanent(n: EphemeralNode, e1: int, e2: int)
    requires
        e1 <= e2,
        n.expired_at(e1),
    ensures
        n.expired_at(e2),
{
}

/// What is left of a lifetime never exceeds it, and is zero exactly when
/// the lifetime has passed.
pub proof fn law_remaining_within_ttl(ttl: nat, elapsed: nat)
    ensures
        0 <= remaining_after(ttl as int, elapsed as int) <= ttl,
        (remaining_after(ttl as int, elapsed as int) == 0) == (elapsed >= ttl),
{
}

} // verus!
