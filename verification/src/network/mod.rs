//! Ephemeral network: node identifiers, node lifecycle and topology.

pub mod discovery;
pub mod node;
pub mod topology;

pub use node::{EphemeralNode, NodeState};
pub use topology::{Topology, TopologyParams};

use vstd::prelude::*;
use crate::crypto::{blake3_derive_key, derive_key};

verus! {

/// A unique ephemeral node identifier, derived from the shared secret.
#[derive(Clone, Copy, Debug, PartialEq, Eq, Hash)]
pub struct NodeId(pub [u8; 8]);

/// Domain label of node identifiers.
pub open spec fn node_id_label() -> Seq<char> {
    "polygone-nodeid-v1"@
}

/// The identifier of node `index` under `seed`: the first eight bytes of
/// the BLAKE3 key derivation over the seed followed by the index.
pub open spec fn node_id_spec(seed: Seq<u8>, index: u8) -> Seq<u8> {
    blake3_derive_key(node_id_label(), seed.push(index)).take(8)
}

impl NodeId {
    /// The bytes of this identifier.
    pub fn as_bytes(&self) -> (r: &[u8])
        ensures
            r@ == self.0@,
    {
        self.0.as_slice()
    }

    /// An identifier from exactly eight bytes; `None` for any other length.
    pub fn from_bytes(bytes: &[u8]) -> (r: Option<NodeId>)
        ensures
            r is Some <==> bytes@.len() == 8,
            r matches Some(id) ==> id.0@ == bytes@,
    {
        if bytes.len() != 8 {
            return None;
        }
        let arr: [u8; 8] = [bytes[0], bytes[1], bytes[2], bytes[3], bytes[4], bytes[5], bytes[6], bytes[7]];
        assert(arr@ =~= bytes@);
        Some(NodeId(arr))
    }

    /// Derive the identifier of node `index` from a seed.
    pub fn derive(seed: &[u8; 32], index: u8) -> (r: NodeId)
        ensures
            r.0@ == node_id_spec(seed@, index),
    {
        let mut material: Vec<u8> = Vec::with_capacity(33);
        let mut i: usize = 0;
        while i < 32
            invariant
                i <= 32,
                material@ == seed@.take(i as int),
            decreases 32 - i,
        {
            material.push(seed[i]);
            i = i + 1;
            assert(material@ =~= seed@.take(i as int));
        }
        assert(seed@.take(32) =~= seed@);
        material.push(index);
        let h = derive_key("polygone-nodeid-v1", material.as_slice());
        proof { reveal_strlit("polygone-nodeid-v1"); }
        let arr: [u8; 8] = [h[0], h[1], h[2], h[3], h[4], h[5], h[6], h[7]];
        assert(arr@ =~= h@.take(8));
        NodeId(arr)
    }
}

/// Node identifiers depend on the index: the identifiers of two different
/// nodes under one seed are the first eight bytes of BLAKE3 key derivation
/// (label "polygone-nodeid-v1") over two different inputs, each the seed
/// followed by that node's own index.
pub proof fn law_node_ids_hash_their_index(seed: Seq<u8>, i: u8, k: u8)
    requires
        i != k,
    ensures
        exists|mi: Seq<u8>, mk: Seq<u8>| {
            &&& mi != mk
            &&& mi.drop_last() == seed && mi.len() == seed.len() + 1 && mi.last() == i
            &&& mk.drop_last() == seed && mk.len() == seed.len() + 1 && mk.last() == k
            &&& #[trigger] node_id_spec(seed, i) == blake3_derive_key("polygone-nodeid-v1"@, mi).take(8)
            &&& #[trigger] node_id_spec(seed, k) == blake3_derive_key("polygone-nodeid-v1"@, mk).take(8)
        },
{
    reveal_strlit("polygone-nodeid-v1");
    let mi = seed.push(i);
    let mk = seed.push(k);
    assert(mi.drop_last() =~= seed);
    assert(mk.drop_last() =~= seed);
    assert(mi.last() != mk.last());
    assert(node_id_spec(seed, i) == blake3_derive_key("polygone-nodeid-v1"@, mi).take(8));
    assert(node_id_spec(seed, k) == blake3_derive_key("polygone-nodeid-v1"@, mk).take(8));
}

} // verus!
