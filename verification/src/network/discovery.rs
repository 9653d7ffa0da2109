//! Peer discovery bookkeeping: the peers heard of, each once, and the
//! bootstrap peers.

use vstd::prelude::*;

verus! {

/// A peer's identity, as the bytes of its multihash.
#[derive(Debug, Clone, PartialEq, Eq, Hash)]
pub struct PeerId(pub Vec<u8>);

/// The bytes of each peer, in order.
pub open spec fn peer_views(v: Seq<PeerId>) -> Seq<Seq<u8>> {
    Seq::new(v.len(), |i: int| v[i].0@)
}

fn copy_peer(p: &PeerId) -> (r: PeerId)
    ensures
        r.0@ == p.0@,
{
    let mut bytes: Vec<u8> = Vec::new();
    let mut i: usize = 0;
    while i < p.0.len()
        invariant
            i <= p.0@.len(),
            bytes@ == p.0@.take(i as int),
        decreases p.0.len() - i,
    {
        bytes.push(p.0[i]);
        i = i + 1;
        assert(bytes@ =~= p.0@.take(i as int));
    }
    assert(p.0@.take(p.0@.len() as int) =~= p.0@);
    PeerId(bytes)
}

fn copy_peers(v: &Vec<PeerId>) -> (r: Vec<PeerId>)
    ensures
        peer_views(r@) == peer_views(v@),
{
    let mut r: Vec<PeerId> = Vec::new();
    let mut i: usize = 0;
    while i < v.len()
        invariant
            i <= v@.len(),
            peer_views(r@) == peer_views(v@).take(i as int),
        decreases v.len() - i,
    {
        let ghost prev = r@;
        r.push(copy_peer(&v[i]));
        assert(peer_views(r@) =~= peer_views(prev).push(v@[i as int].0@));
        assert(peer_views(v@).take(i + 1) =~= peer_views(v@).take(i as int).push(v@[i as int].0@));
        i = i + 1;
    }
    assert(peer_views(v@).take(v@.len() as int) =~= peer_views(v@));
    r
}

/// Whether two byte vectors are equal.
fn same_bytes(a: &Vec<u8>, b: &Vec<u8>) -> (r: bool)
    ensures
        r == (a@ == b@),
{
    if a.len() != b.len() {
        return false;
    }
    let mut i: usize = 0;
    while i < a.len()
        invariant
            a@.len() == b@.len(),
            i <= a@.len(),
            forall|k: int| 0 <= k < i ==> a@[k] == b@[k],
        decreases a.len() - i,
    {
        if a[i] != b[i] {
            return false;
        }
        i = i + 1;
    }
    assert(a@ =~= b@);
    true
}

/// The peers heard of and the bootstrap peers.
pub struct PeerDiscovery {
    known_peers: Vec<PeerId>,
    bootstrap_nodes: Vec<PeerId>,
}

impl PeerDiscovery {
    /// The peers heard of, each once, in the order first heard.
    pub closed spec fn known(&self) -> Seq<Seq<u8>> {
        peer_views(self.known_peers@)
    }

    /// The bootstrap peers.
    pub closed spec fn bootstrap(&self) -> Seq<Seq<u8>> {
        peer_views(self.bootstrap_nodes@)
    }

    /// Each peer is known once.
    pub closed spec fn wf(&self) -> bool {
        self.known().no_duplicates()
    }

    /// No peer known yet, and these bootstrap peers.
    pub fn new(bootstrap_nodes: Vec<PeerId>) -> (r: Self)
        ensures
            r.wf(),
            r.known().len() == 0,
            r.bootstrap() == peer_views(bootstrap_nodes@),
    {
        let r = PeerDiscovery { known_peers: Vec::new(), bootstrap_nodes };
        assert(r.known() =~= Seq::<Seq<u8>>::empty());
        r
    }

    /// Add a peer to those heard of (no change when it is known).
    pub fn add_peer(&mut self, peer_id: PeerId)
        requires
            old(self).wf(),
        ensures
            final(self).wf(),
            final(self).bootstrap() == old(self).bootstrap(),
            old(self).known().contains(peer_id.0@) ==> final(self).known() == old(self).known(),
            !old(self).known().contains(peer_id.0@) ==> final(self).known() == old(self).known().push(peer_id.0@),
    {
        let ghost k0 = self.known();
        let mut i: usize = 0;
        while i < self.known_peers.len()
            invariant
                k0 == peer_views(self.known_peers@),
                self.known_peers@ == old(self).known_peers@,
                self.bootstrap_nodes@ == old(self).bootstrap_nodes@,
                k0.no_duplicates(),
                i <= self.known_peers@.len(),
                forall|j: int| 0 <= j < i ==> k0[j] != peer_id.0@,
            decreases self.known_peers.len() - i,
        {
            if same_bytes(&self.known_peers[i].0, &peer_id.0) {
                assert(k0[i as int] == peer_id.0@);
                return;
            }
            i = i + 1;
        }
        let ghost p = peer_id.0@;
        self.known_peers.push(peer_id);
        proof {
            assert(self.known() =~= k0.push(p));
            assert forall|a: int, b: int| 0 <= a < self.known().len() && 0 <= b < self.known().len() && a != b
                implies self.known()[a] != self.known()[b] by {
                if b == k0.len() {
                    assert(self.known()[a] == k0[a]);
                } else if a == k0.len() {
                    assert(self.known()[b] == k0[b]);
                }
            }
        }
    }

    /// The peers heard of.
    pub fn known_peers(&self) -> (r: Vec<PeerId>)
        ensures
            peer_views(r@) == self.known(),
    {
        copy_peers(&self.known_peers)
    }

    /// The bootstrap peers.
    pub fn bootstrap_nodes(&self) -> (r: Vec<PeerId>)
        ensures
            peer_views(r@) == self.bootstrap(),
    {
        copy_peers(&self.bootstrap_nodes)
    }

    /// The number of peers heard of.
    pub fn peer_count(&self) -> (r: usize)
        ensures
            r == self.known().len(),
    {
        self.known_peers.len()
    }

    /// Whether any peer has been heard of.
    pub fn has_peers(&self) -> (r: bool)
        ensures
            r == (self.known().len() > 0),
    {
        self.known_peers.len() > 0
    }
}

} // verus!
