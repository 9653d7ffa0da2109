//! Deterministic topology derivation from shared key material.
//!
//! From a 32-byte seed both peers derive, with no further exchange, the
//! node identifiers, an undirected connectivity graph between the nodes
//! and the assignment of fragments to nodes.

use vstd::prelude::*;
use super::{NodeId, node_id_spec};
use crate::crypto::{blake3_derive_key, derive_key};
use crate::error::{PolygoneError, Result};
use crate::fmt::{decimal, format_two_numbers};

verus! {

/// Parameters controlling the size and resilience of the network.
#[derive(Debug, Clone, Copy)]
pub struct TopologyParams {
    /// Number of ephemeral nodes (must be at least the threshold).
    pub node_count: u8,
    /// Shamir threshold: minimum nodes needed for reconstruction.
    pub threshold: u8,
    /// Maximum number of connections per node (controls graph density).
    pub max_edges_per_node: u8,
}

impl TopologyParams {
    /// The default parameters: 7 nodes, threshold 4, at most 3 connections
    /// per node.
    pub fn default() -> (r: Self)
        ensures
            r.node_count == 7,
            r.threshold == 4,
            r.max_edges_per_node == 3,
    {
        TopologyParams { node_count: 7, threshold: 4, max_edges_per_node: 3 }
    }
}

/// A derived ephemeral topology.
#[derive(Debug)]
pub struct Topology {
    pub params: TopologyParams,
    /// All nodes, in order.
    pub nodes: Vec<NodeId>,
    /// Adjacency lists: node index to neighbour indices.
    pub edges: Vec<Vec<usize>>,
    /// Which node index receives which fragment (fragments are 1-indexed).
    pub fragment_assignment: Vec<(u8, usize)>,
}

/// Domain label of the per-node edge seeds.
pub open spec fn edge_label() -> Seq<char> {
    "polygone edge seed v1"@
}

/// The neighbour that node `i` draws with pick `s`: byte `s` of its edge
/// seed, modulo the node count.
pub open spec fn pick(key: Seq<u8>, n: nat, i: int, s: int) -> int {
    (blake3_derive_key(edge_label(), key.push(i as u8))[s] as nat % n) as int
}

/// Adds `b` to the list of `a` unless it is there already.
pub open spec fn one_way(edges: Seq<Seq<usize>>, a: int, b: int) -> Seq<Seq<usize>> {
    if edges[a].contains(b as usize) { edges } else { edges.update(a, edges[a].push(b as usize)) }
}

/// One pick: node `i` drawing `j` links the two (each appended to the
/// other's list) when they differ, are not linked yet, and both have fewer
/// than `m` neighbours; otherwise nothing changes.
pub open spec fn link_step(edges: Seq<Seq<usize>>, i: int, j: int, m: int) -> Seq<Seq<usize>> {
    if j != i && !edges[i].contains(j as usize) && edges[i].len() < m && edges[j].len() < m {
        one_way(one_way(edges, i, j), j, i)
    } else {
        edges
    }
}

/// The adjacency lists once the rows below `row` have made all `m` picks
/// and row `row` its first `slot` picks, rows and picks taken in order.
pub open spec fn edges_upto(key: Seq<u8>, n: nat, m: nat, row: nat, slot: nat) -> Seq<Seq<usize>>
    decreases row, slot,
{
    if slot > 0 {
        link_step(edges_upto(key, n, m, row, (slot - 1) as nat), row as int, pick(key, n, row as int, slot - 1), m as int)
    } else if row > 0 {
        edges_upto(key, n, m, (row - 1) as nat, m)
    } else {
        Seq::new(n, |a: int| Seq::<usize>::empty())
    }
}

/// The adjacency lists of `n` nodes form an undirected graph with no
/// self-loops, no repeated neighbour, no out-of-range neighbour, and at
/// most `m` neighbours per node.
pub open spec fn graph_ok(edges: Seq<Seq<usize>>, n: nat, m: int) -> bool {
    &&& edges.len() == n
    &&& forall|a: int| 0 <= a < n ==> (#[trigger] edges[a]).no_duplicates()
    &&& forall|a: int| 0 <= a < n ==> (#[trigger] edges[a]).len() <= m
    &&& forall|a: int| 0 <= a < n ==> !(#[trigger] edges[a]).contains(a as usize)
    &&& forall|a: int, k: int| 0 <= a < n && 0 <= k < edges[a].len() ==> (#[trigger] edges[a][k]) < n
    &&& forall|a: int, b: int| 0 <= a < n && 0 <= b < n ==>
        (#[trigger] edges[a].contains(b as usize) <==> #[trigger] edges[b].contains(a as usize))
}

/// The adjacency lists as sequences.
pub open spec fn edge_views(edges: Seq<Vec<usize>>) -> Seq<Seq<usize>> {
    edges.map_values(|v: Vec<usize>| v@)
}

/// `t` is the topology that `key` and `params` determine.
pub open spec fn derived_from(t: Topology, key: Seq<u8>, params: TopologyParams) -> bool {
    let n = params.node_count as nat;
    let m = params.max_edges_per_node as int;
    &&& t.params == params
    &&& t.nodes@.len() == n
    &&& forall|i: int| 0 <= i < n ==> (#[trigger] t.nodes@[i]).0@ == node_id_spec(key, i as u8)
    &&& edge_views(t.edges@) == edges_upto(key, n, m as nat, n, 0)
    &&& t.fragment_assignment@ == Seq::new(n, |i: int| ((i + 1) as u8, i as usize))
}

fn contains_index(v: &Vec<usize>, x: usize) -> (r: bool)
    ensures
        r == v@.contains(x),
{
    let mut i: usize = 0;
    while i < v.len()
        invariant
            i <= v@.len(),
            forall|k: int| 0 <= k < i ==> v@[k] != x,
        decreases v.len() - i,
    {
        if v[i] == x {
            return true;
        }
        i = i + 1;
    }
    false
}

fn pushed(v: &Vec<usize>, x: usize) -> (r: Vec<usize>)
    ensures
        r@ == v@.push(x),
{
    let mut r: Vec<usize> = Vec::new();
    let mut i: usize = 0;
    while i < v.len()
        invariant
            i <= v@.len(),
            r@ == v@.take(i as int),
        decreases v.len() - i,
    {
        r.push(v[i]);
        i = i + 1;
        assert(r@ =~= v@.take(i as int));
    }
    assert(v@.take(v@.len() as int) =~= v@);
    r.push(x);
    r
}

proof fn lemma_push_contains(s: Seq<usize>, v: usize, x: usize)
    ensures
        s.push(v).contains(x) <==> (s.contains(x) || x == v),
{
    if s.push(v).contains(x) {
        let k = choose|k: int| 0 <= k < s.push(v).len() && s.push(v)[k] == x;
        if k < s.len() {
            assert(s[k] == x);
        }
    }
    if s.contains(x) {
        let k = choose|k: int| 0 <= k < s.len() && s[k] == x;
        assert(s.push(v)[k] == x);
    }
    if x == v {
        assert(s.push(v)[s.len() as int] == x);
    }
}

proof fn lemma_link_step_ok(edges: Seq<Seq<usize>>, n: nat, m: int, i: int, j: int)
    requires
        n <= 255,
        graph_ok(edges, n, m),
        0 <= i < n,
        0 <= j < n,
    ensures
        graph_ok(link_step(edges, i, j, m), n, m),
{
    if j != i && !edges[i].contains(j as usize) && edges[i].len() < m && edges[j].len() < m {
        broadcast use vstd::seq_lib::group_seq_properties;
        assert(!edges[j].contains(i as usize));
        let e1 = one_way(edges, i, j);
        assert(e1 == edges.update(i, edges[i].push(j as usize)));
        assert(e1[j] == edges[j]);
        let e2 = one_way(e1, j, i);
        assert(e2 == e1.update(j, edges[j].push(i as usize)));
        assert forall|a: int, k: int| 0 <= a < n && 0 <= k < e2[a].len() implies (#[trigger] e2[a][k]) < n by {
            if a == i || a == j {
                if k < edges[a].len() {
                    assert(e2[a][k] == edges[a][k]);
                }
            }
        }
        assert forall|a: int, b: int| 0 <= a < n && 0 <= b < n implies
            (#[trigger] e2[a].contains(b as usize) <==> #[trigger] e2[b].contains(a as usize)) by {
            assert(edges[a].contains(b as usize) <==> edges[b].contains(a as usize));
            lemma_push_contains(edges[i], j as usize, b as usize);
            lemma_push_contains(edges[j], i as usize, b as usize);
            lemma_push_contains(edges[i], j as usize, a as usize);
            lemma_push_contains(edges[j], i as usize, a as usize);
        }
        assert forall|a: int| 0 <= a < n implies !(#[trigger] e2[a]).contains(a as usize) by {
            lemma_push_contains(edges[i], j as usize, a as usize);
            lemma_push_contains(edges[j], i as usize, a as usize);
        }
    }
}

/// Every stage of the derivation keeps the lists a well-formed graph.
pub proof fn lemma_edges_upto_ok(key: Seq<u8>, n: nat, m: nat, row: nat, slot: nat)
    requires
        n <= 255,
        slot <= m,
        row < n || (row == n && slot == 0),
    ensures
        graph_ok(edges_upto(key, n, m, row, slot), n, m as int),
    decreases row, slot,
{
    if slot > 0 {
        lemma_edges_upto_ok(key, n, m, row, (slot - 1) as nat);
        lemma_pick_in_range(key, n, row as int, slot - 1);
        lemma_link_step_ok(edges_upto(key, n, m, row, (slot - 1) as nat), n, m as int, row as int,
            pick(key, n, row as int, slot - 1));
    } else if row > 0 {
        lemma_edges_upto_ok(key, n, m, (row - 1) as nat, m);
    } else {
        let e = edges_upto(key, n, m, row, slot);
        assert forall|a: int| 0 <= a < n implies (#[trigger] e[a]).no_duplicates() by {
            assert(e[a] =~= Seq::<usize>::empty());
        }
        assert forall|a: int, b: int| 0 <= a < n && 0 <= b < n implies
            (#[trigger] e[a].contains(b as usize) <==> #[trigger] e[b].contains(a as usize)) by {
            assert(e[a] =~= Seq::<usize>::empty());
            assert(e[b] =~= Seq::<usize>::empty());
        }
        assert forall|a: int| 0 <= a < n implies !(#[trigger] e[a]).contains(a as usize) by {
            assert(e[a] =~= Seq::<usize>::empty());
        }
    }
}

proof fn lemma_pick_in_range(key: Seq<u8>, n: nat, i: int, s: int)
    requires
        n > 0,
    ensures
        0 <= pick(key, n, i, s) < n,
{
}

/// Adds `b` to the list of `a` unless it is there already.
fn link_one_way(edges: &mut Vec<Vec<usize>>, a: usize, b: usize)
    requires
        a < old(edges)@.len(),
    ensures
        final(edges)@.len() == old(edges)@.len(),
        forall|k: int| 0 <= k < old(edges)@.len() && k != a ==> #[trigger] final(edges)@[k]@ == old(edges)@[k]@,
        final(edges)@[a as int]@ == if old(edges)@[a as int]@.contains(b) { old(edges)@[a as int]@ }
            else { old(edges)@[a as int]@.push(b) },
{
    if !contains_index(&edges[a], b) {
        let row = pushed(&edges[a], b);
        edges.set(a, row);
    }
}

/// Derive a topology from the seed. Each node in turn draws
/// `max_edges_per_node` candidate neighbours from its edge seed; a draw
/// links the two nodes (in both lists) unless it is the node itself, they
/// are linked already, or either already has `max_edges_per_node`
/// neighbours.
///
/// Errors when the threshold exceeds the node count. More than 32 picks
/// per node would read past the 32-byte edge seed once there is a node to
/// draw for, so those inputs are excluded.
pub fn derive_topology(session_key: &[u8; 32], params: TopologyParams) -> (r: Result<Topology>)
    requires
        params.threshold > params.node_count || params.node_count == 0 || params.max_edges_per_node <= 32,
    ensures
        match r {
            Err(e) => params.threshold > params.node_count
                && (e matches PolygoneError::TopologyDerivation(msg) && msg@ == (
                    "threshold ("@ + decimal(params.threshold as nat) + ") > node_count ("@
                        + decimal(params.node_count as nat) + ")"@)),
            Ok(t) => params.threshold <= params.node_count && derived_from(t, session_key@, params),
        },
{
    let n = params.node_count as usize;
    let t = params.threshold;
    if t as usize > n {
        let msg = format_two_numbers("threshold (", t as u64, ") > node_count (", n as u64, ")");
        proof {
            reveal_strlit("threshold (");
            reveal_strlit(") > node_count (");
            reveal_strlit(")");
        }
        return Err(PolygoneError::TopologyDerivation(msg));
    }
    let ghost key = session_key@;
    let ghost nn = n as nat;
    let m = params.max_edges_per_node as usize;

    // 1. Node identifiers.
    let mut nodes: Vec<NodeId> = Vec::new();
    let mut i: usize = 0;
    while i < n
        invariant
            n <= 255,
            i <= n,
            key == session_key@,
            nodes@.len() == i,
            forall|k: int| 0 <= k < i ==> (#[trigger] nodes@[k]).0@ == node_id_spec(key, k as u8),
        decreases n - i,
    {
        nodes.push(NodeId::derive(session_key, i as u8));
        i = i + 1;
    }

    // 2. Edges.
    let mut edges: Vec<Vec<usize>> = Vec::new();
    let mut i: usize = 0;
    while i < n
        invariant
            i <= n,
            edges@.len() == i,
            forall|k: int| 0 <= k < i ==> (#[trigger] edges@[k])@ == Seq::<usize>::empty(),
        decreases n - i,
    {
        edges.push(Vec::new());
        i = i + 1;
    }
    assert(edge_views(edges@) =~= edges_upto(key, nn, m as nat, 0, 0));
    proof {
        reveal_strlit("polygone edge seed v1");
    }
    let mut i: usize = 0;
    while i < n
        invariant
            n <= 255,
            n > 0 ==> m <= 32,
            i <= n,
            key == session_key@,
            nn == n,
            m == params.max_edges_per_node,
            edges@.len() == n,
            edge_views(edges@) == edges_upto(key, nn, m as nat, i as nat, 0),
        decreases n - i,
    {
        let mut material: Vec<u8> = Vec::with_capacity(33);
        let mut k: usize = 0;
        while k < 32
            invariant
                k <= 32,
                material@ == session_key@.take(k as int),
            decreases 32 - k,
        {
            material.push(session_key[k]);
            k = k + 1;
            assert(material@ =~= session_key@.take(k as int));
        }
        assert(session_key@.take(32) =~= session_key@);
        material.push(i as u8);
        let seed = derive_key("polygone edge seed v1", material.as_slice());
        let mut slot: usize = 0;
        while slot < m
            invariant
                n <= 255,
                m <= 32,
                i < n,
                slot <= m,
                key == session_key@,
                nn == n,
                seed@ == blake3_derive_key(edge_label(), key.push(i as u8)),
                edges@.len() == n,
                edge_views(edges@) == edges_upto(key, nn, m as nat, i as nat, slot as nat),
            decreases m - slot,
        {
            let j = seed[slot] as usize % n;
            let ghost before = edge_views(edges@);
            assert(pick(key, nn, i as int, slot as int) == j);
            assert(before[i as int] == edges@[i as int]@);
            assert(before[j as int] == edges@[j as int]@);
            let changed = j != i && !contains_index(&edges[i], j) && edges[i].len() < m && edges[j].len() < m;
            if changed {
                link_one_way(&mut edges, i, j);
                assert(edge_views(edges@) =~= one_way(before, i as int, j as int));
                let ghost mid = edge_views(edges@);
                link_one_way(&mut edges, j, i);
                assert(edge_views(edges@) =~= one_way(mid, j as int, i as int));
            }
            assert(edge_views(edges@) =~= link_step(before, i as int, j as int, m as int));
            slot = slot + 1;
        }
        assert(edges_upto(key, nn, m as nat, (i + 1) as nat, 0) == edges_upto(key, nn, m as nat, i as nat, m as nat));
        i = i + 1;
    }

    // 3. Fragment assignment: fragment i + 1 goes to node i.
    let mut fragment_assignment: Vec<(u8, usize)> = Vec::new();
    let mut i: usize = 0;
    while i < n
        invariant
            n <= 255,
            i <= n,
            fragment_assignment@ == Seq::new(i as nat, |k: int| ((k + 1) as u8, k as usize)),
        decreases n - i,
    {
        fragment_assignment.push((i as u8 + 1, i));
        i = i + 1;
        assert(fragment_assignment@ =~= Seq::new(i as nat, |k: int| ((k + 1) as u8, k as usize)));
    }
    let topo = Topology { params, nodes, edges, fragment_assignment };
    Ok(topo)
}

impl Topology {
    /// Derive a topology from the seed (see `derive_topology`).
    pub fn derive(session_key: &[u8; 32], params: TopologyParams) -> (r: Result<Topology>)
        requires
            params.threshold > params.node_count || params.node_count == 0 || params.max_edges_per_node <= 32,
        ensures
            match r {
                Err(e) => params.threshold > params.node_count
                    && (e matches PolygoneError::TopologyDerivation(msg) && msg@ == (
                        "threshold ("@ + decimal(params.threshold as nat) + ") > node_count ("@
                            + decimal(params.node_count as nat) + ")"@)),
                Ok(t) => params.threshold <= params.node_count && derived_from(t, session_key@, params),
            },
    {
        derive_topology(session_key, params)
    }

    /// The identifier of node `i`, if there is one.
    pub fn node(&self, i: usize) -> (r: Option<&NodeId>)
        ensures
            r is Some <==> i < self.nodes@.len(),
            r matches Some(id) ==> *id == self.nodes@[i as int],
    {
        if i < self.nodes.len() { Some(&self.nodes[i]) } else { None }
    }

    /// The neighbours of node `i`; empty when there is no node `i`.
    pub fn neighbours(&self, i: usize) -> (r: &[usize])
        ensures
            i < self.edges@.len() ==> r@ == self.edges@[i as int]@,
            i >= self.edges@.len() ==> r@.len() == 0,
    {
        if i < self.edges.len() { self.edges[i].as_slice() } else { &[] }
    }
}

/// The graph is undirected, with no self-loops and no repeated or
/// out-of-range neighbours, and no node has more than
/// `max_edges_per_node` neighbours: `b` is a neighbour of `a` exactly
/// when `a` is a neighbour of `b`.
pub proof fn law_topology_is_undirected(t: Topology, key: Seq<u8>, params: TopologyParams, a: int, b: int)
    requires
        derived_from(t, key, params),
        0 <= a < params.node_count,
        0 <= b < params.node_count,
    ensures
        t.edges@[a]@.contains(b as usize) <==> t.edges@[b]@.contains(a as usize),
        !t.edges@[a]@.contains(a as usize),
        t.edges@[a]@.no_duplicates(),
        t.edges@[a]@.len() <= params.max_edges_per_node,
        forall|k: int| 0 <= k < t.edges@[a]@.len() ==> (#[trigger] t.edges@[a]@[k]) < params.node_count,
{
    let n = params.node_count as nat;
    let m = params.max_edges_per_node as nat;
    lemma_edges_upto_ok(key, n, m, n, 0);
    let e = edges_upto(key, n, m, n, 0);
    assert(edge_views(t.edges@)[a] == t.edges@[a]@);
    assert(edge_views(t.edges@)[b] == t.edges@[b]@);
    assert(e[a].contains(b as usize) <==> e[b].contains(a as usize));
    assert(e[a].no_duplicates());
    assert(e[a].len() <= m);
    assert(!e[a].contains(a as usize));
}

/// Both peers derive the same topology: two topologies derived from the
/// same seed and parameters have the same node identifiers, the same
/// adjacency lists (neighbours in the same order) and the same fragment
/// assignment.
pub proof fn law_topology_is_deterministic(t1: Topology, t2: Topology, key: Seq<u8>, params: TopologyParams)
    requires
        derived_from(t1, key, params),
        derived_from(t2, key, params),
    ensures
        t1.nodes@.len() == t2.nodes@.len(),
        forall|i: int| 0 <= i < t1.nodes@.len() ==> (#[trigger] t1.nodes@[i]).0@ == t2.nodes@[i].0@,
        t1.edges@.len() == t2.edges@.len(),
        forall|a: int| 0 <= a < t1.edges@.len() ==> (#[trigger] t1.edges@[a])@ == t2.edges@[a]@,
        t1.fragment_assignment@ == t2.fragment_assignment@,
{
    assert(edge_views(t1.edges@).len() == t1.edges@.len());
    assert(edge_views(t2.edges@).len() == t2.edges@.len());
    assert forall|a: int| 0 <= a < t1.edges@.len() implies (#[trigger] t1.edges@[a])@ == t2.edges@[a]@ by {
        assert(edge_views(t1.edges@)[a] == t1.edges@[a]@);
        assert(edge_views(t2.edges@)[a] == t2.edges@[a]@);
    }
}

/// Every list of `e1` is kept in `e2`, possibly with more at its end:
/// no neighbour is lost and no list shrinks.
pub open spec fn grows(e1: Seq<Seq<usize>>, e2: Seq<Seq<usize>>, n: nat) -> bool {
    &&& forall|a: int, b: usize| 0 <= a < n && #[trigger] e1[a].contains(b) ==> e2[a].contains(b)
    &&& forall|a: int| 0 <= a < n ==> (#[trigger] e1[a]).len() <= e2[a].len()
}

proof fn lemma_one_way_grows(e: Seq<Seq<usize>>, n: nat, a: int, b: int)
    requires
        e.len() == n,
        0 <= a < n,
    ensures
        grows(e, one_way(e, a, b), n),
        one_way(e, a, b).len() == n,
{
    let e2 = one_way(e, a, b);
    assert forall|x: int, y: usize| 0 <= x < n && #[trigger] e[x].contains(y) implies e2[x].contains(y) by {
        if x == a {
            lemma_push_contains(e[a], b as usize, y);
        }
    }
}

proof fn lemma_link_step_grows(e: Seq<Seq<usize>>, n: nat, m: int, i: int, j: int)
    requires
        e.len() == n,
        0 <= i < n,
        0 <= j < n,
    ensures
        grows(e, link_step(e, i, j, m), n),
        link_step(e, i, j, m).len() == n,
{
    if j != i && !e[i].contains(j as usize) && e[i].len() < m && e[j].len() < m {
        let e1 = one_way(e, i, j);
        lemma_one_way_grows(e, n, i, j);
        lemma_one_way_grows(e1, n, j, i);
        let e2 = one_way(e1, j, i);
        assert forall|x: int, y: usize| 0 <= x < n && #[trigger] e[x].contains(y) implies e2[x].contains(y) by {
            assert(e1[x].contains(y));
        }
        assert forall|x: int| 0 <= x < n implies (#[trigger] e[x]).len() <= e2[x].len() by {
            assert(e[x].len() <= e1[x].len());
            assert(e1[x].len() <= e2[x].len());
        }
    }
}

proof fn lemma_reach_final(key: Seq<u8>, n: nat, m: nat, row: nat, slot: nat)
    requires
        n <= 255,
        slot <= m,
        row < n || (row == n && slot == 0),
    ensures
        grows(edges_upto(key, n, m, row, slot), edges_upto(key, n, m, n, 0), n),
    decreases n - row, m - slot,
{
    let e1 = edges_upto(key, n, m, row, slot);
    let fin = edges_upto(key, n, m, n, 0);
    if row == n {
    } else if slot < m {
        lemma_edges_upto_ok(key, n, m, row, slot);
        lemma_pick_in_range(key, n, row as int, slot as int);
        let e2 = edges_upto(key, n, m, row, slot + 1);
        assert(e2 == link_step(e1, row as int, pick(key, n, row as int, slot as int), m as int));
        lemma_link_step_grows(e1, n, m as int, row as int, pick(key, n, row as int, slot as int));
        lemma_reach_final(key, n, m, row, slot + 1);
        assert forall|a: int, b: usize| 0 <= a < n && #[trigger] e1[a].contains(b) implies fin[a].contains(b) by {
            assert(e2[a].contains(b));
        }
        assert forall|a: int| 0 <= a < n implies (#[trigger] e1[a]).len() <= fin[a].len() by {
            assert(e1[a].len() <= e2[a].len());
            assert(e2[a].len() <= fin[a].len());
        }
    } else {
        assert(edges_upto(key, n, m, row + 1, 0) == e1);
        lemma_reach_final(key, n, m, row + 1, 0);
    }
}

/// Whether every neighbour in `e` was drawn: `b` is a neighbour of `a` only
/// when one of the two drew the other with one of its `m` picks.
pub open spec fn from_picks(e: Seq<Seq<usize>>, key: Seq<u8>, n: nat, m: nat) -> bool {
    forall|a: int, b: usize| 0 <= a < n && #[trigger] e[a].contains(b) ==> drawn_between(key, n, m, a, b as int)
}

/// Whether one of `a` and `b` drew the other with one of its `m` picks.
pub open spec fn drawn_between(key: Seq<u8>, n: nat, m: nat, a: int, b: int) -> bool {
    exists|s: int| #![trigger pick(key, n, a, s)] #![trigger pick(key, n, b, s)]
        0 <= s < m && (pick(key, n, a, s) == b || pick(key, n, b, s) == a)
}

proof fn lemma_edges_upto_from_picks(key: Seq<u8>, n: nat, m: nat, row: nat, slot: nat)
    requires
        n <= 255,
        slot <= m,
        row < n || (row == n && slot == 0),
    ensures
        from_picks(edges_upto(key, n, m, row, slot), key, n, m),
    decreases row, slot,
{
    let e = edges_upto(key, n, m, row, slot);
    if slot > 0 {
        let p = edges_upto(key, n, m, row, (slot - 1) as nat);
        lemma_edges_upto_from_picks(key, n, m, row, (slot - 1) as nat);
        lemma_edges_upto_ok(key, n, m, row, (slot - 1) as nat);
        let i = row as int;
        let s0 = slot - 1;
        let j = pick(key, n, i, s0);
        lemma_pick_in_range(key, n, i, s0);
        assert(e == link_step(p, i, j, m as int));
        assert forall|a: int, b: usize| 0 <= a < n && #[trigger] e[a].contains(b) implies
            drawn_between(key, n, m, a, b as int) by {
            let linked = j != i && !p[i].contains(j as usize) && p[i].len() < m && p[j].len() < m;
            let new_pair = linked && ((a == i && b as int == j) || (a == j && b as int == i));
            if linked {
                let p1 = one_way(p, i, j);
                assert(p1 == p.update(i, p[i].push(j as usize)));
                assert(p1[j] == p[j]);
                if !p1[j].contains(i as usize) {
                    assert(e == p1.update(j, p1[j].push(i as usize)));
                } else {
                    assert(e == p1);
                }
                if a == i {
                    lemma_push_contains(p[i], j as usize, b);
                }
                if a == j {
                    lemma_push_contains(p1[j], i as usize, b);
                }
            } else {
                assert(e == p);
            }
            if new_pair {
                if a == i && b as int == j {
                    assert(pick(key, n, a, s0) == b as int);
                } else {
                    assert(pick(key, n, b as int, s0) == a);
                }
            } else {
                assert(p[a].contains(b));
            }
        }
    } else if row > 0 {
        lemma_edges_upto_from_picks(key, n, m, (row - 1) as nat, m);
    } else {
        assert forall|a: int, b: usize| 0 <= a < n && #[trigger] e[a].contains(b) implies
            drawn_between(key, n, m, a, b as int) by {
            assert(e[a] =~= Seq::<usize>::empty());
        }
    }
}

/// The neighbour graph is the one the edge seeds draw. Each pick links:
/// when node `i`'s pick `s` (byte `s` of its edge seed, the BLAKE3 key
/// derivation labelled "polygone edge seed v1" over the key followed by
/// `i`, modulo the node count) names another node `j`, then `j` is a
/// neighbour of `i` unless one of the two already has `max_edges_per_node`
/// neighbours. And only picks link: `b` is a neighbour of `a` only when
/// one of the two drew the other.
pub proof fn law_neighbours_are_the_picks(t: Topology, key: Seq<u8>, params: TopologyParams, i: int, s: int, a: int, b: int)
    requires
        derived_from(t, key, params),
        0 <= i < params.node_count,
        0 <= s < params.max_edges_per_node,
        0 <= a < params.node_count,
        0 <= b < params.node_count,
    ensures
        ({
            let j = (blake3_derive_key("polygone edge seed v1"@, key.push(i as u8))[s] as nat % params.node_count as nat) as int;
            j == i || t.edges@[i]@.contains(j as usize)
                || t.edges@[i]@.len() == params.max_edges_per_node
                || t.edges@[j]@.len() == params.max_edges_per_node
        }),
        t.edges@[a]@.contains(b as usize) ==> exists|k: int|
            #![trigger blake3_derive_key("polygone edge seed v1"@, key.push(a as u8))[k]]
            0 <= k < params.max_edges_per_node && {
            ||| (blake3_derive_key("polygone edge seed v1"@, key.push(a as u8))[k] as nat % params.node_count as nat) as int == b
            ||| (blake3_derive_key("polygone edge seed v1"@, key.push(b as u8))[k] as nat % params.node_count as nat) as int == a
        },
{
    reveal_strlit("polygone edge seed v1");
    let n = params.node_count as nat;
    let m = params.max_edges_per_node as nat;
    let fin = edges_upto(key, n, m, n, 0);
    lemma_edges_upto_ok(key, n, m, n, 0);
    assert(edge_views(t.edges@) == fin);
    assert(edge_views(t.edges@).len() == t.edges@.len());
    assert(edge_views(t.edges@)[i] == t.edges@[i]@);
    assert(edge_views(t.edges@)[a] == t.edges@[a]@);
    let j = pick(key, n, i, s);
    lemma_pick_in_range(key, n, i, s);
    assert(edge_views(t.edges@)[j] == t.edges@[j]@);
    // The pick's own step.
    let e1 = edges_upto(key, n, m, i as nat, s as nat);
    let e2 = edges_upto(key, n, m, i as nat, (s + 1) as nat);
    lemma_edges_upto_ok(key, n, m, i as nat, s as nat);
    lemma_edges_upto_ok(key, n, m, n, 0);
    assert(e2 == link_step(e1, i, j, m as int));
    lemma_reach_final(key, n, m, i as nat, (s + 1) as nat);
    if j != i && !fin[i].contains(j as usize) {
        // Not linked at the end, so not linked after the step either.
        assert(!e2[i].contains(j as usize));
        if !e1[i].contains(j as usize) && e1[i].len() < m && e1[j].len() < m {
            let p1 = one_way(e1, i, j);
            assert(p1[i] == e1[i].push(j as usize));
            lemma_push_contains(e1[i], j as usize, j as usize);
            lemma_one_way_grows(p1, n, j, i);
            assert(e2[i].contains(j as usize));
        }
        if e1[i].contains(j as usize) {
            lemma_link_step_grows(e1, n, m as int, i, j);
        }
        lemma_link_step_grows(e1, n, m as int, i, j);
        assert(e1[i].len() <= e2[i].len() && e2[i].len() <= fin[i].len());
        assert(e1[j].len() <= e2[j].len() && e2[j].len() <= fin[j].len());
    }
    lemma_edges_upto_from_picks(key, n, m, n, 0);
    if t.edges@[a]@.contains(b as usize) {
        assert(fin[a].contains(b as usize));
        assert(drawn_between(key, n, m, a, b));
        let k = choose|k: int| #![trigger pick(key, n, a, k)] #![trigger pick(key, n, b, k)]
            0 <= k < m && (pick(key, n, a, k) == b || pick(key, n, b, k) == a);
        assert(pick(key, n, a, k) == (blake3_derive_key("polygone edge seed v1"@, key.push(a as u8))[k] as nat % n) as int);
        assert(pick(key, n, b, k) == (blake3_derive_key("polygone edge seed v1"@, key.push(b as u8))[k] as nat % n) as int);
    }
}

} // verus!
