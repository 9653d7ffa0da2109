use std::time::Duration;
use polygone::crypto::{KeyPair, SharedSecret};
use polygone::network::discovery::{PeerDiscovery, PeerId};
use polygone::network::node::{EphemeralNode, NodeState};
use polygone::network::topology::{Topology, TopologyParams};
use polygone::network::NodeId;
use polygone::packet::{check_replay, HandshakeInit, PacketHeader, PacketType, PROTOCOL_VERSION, REPLAY_WINDOW_SECS};
use polygone::protocol::session::Session;
use polygone::protocol::{SessionId, TransitState};

#[test]
fn node_deposit_and_collect() {
    let id = NodeId([1u8; 8]);
    let mut node = EphemeralNode::new(id, Duration::from_secs(30).as_nanos());
    node.deposit(vec![1, 2, 3]).unwrap();
    let data = node.collect().unwrap();
    assert_eq!(data, vec![1, 2, 3]);
}

#[test]
fn dissolved_node_rejects_deposit() {
    let id = NodeId([2u8; 8]);
    let mut node = EphemeralNode::new(id, Duration::from_secs(30).as_nanos());
    node.dissolve();
    assert!(node.deposit(vec![1, 2, 3]).is_err());
}

#[test]
fn node_refuses_second_fragment_and_shows_state() {
    let mut node = EphemeralNode::new(NodeId([3u8; 8]), Duration::from_secs(30).as_nanos());
    assert_eq!(node.status_char(), "●");
    node.deposit(vec![1]).unwrap();
    assert_eq!(node.deposit(vec![2]), Err("node already holds a fragment"));
    node.dissolve();
    assert_eq!(node.state, NodeState::Dissolved);
    assert_eq!(node.status_char(), "○");
    assert_eq!(node.deposit(vec![2]), Err("node already dissolved"));
    assert_eq!(node.collect(), None);
}

#[test]
fn expired_node_dissolves_on_collect() {
    let mut node = EphemeralNode::new(NodeId([4u8; 8]), Duration::from_secs(0).as_nanos());
    node.deposit(vec![9]).unwrap();
    assert!(node.is_expired());
    assert_eq!(node.collect(), None);
    assert_eq!(node.state, NodeState::Dissolved);
}

#[test]
fn node_expiry_follows_elapsed_time() {
    let node = EphemeralNode::new(NodeId([5u8; 8]), Duration::from_secs(30).as_nanos());
    assert!(!node.is_expired_at(0));
    assert!(!node.is_expired_at(29_999_999_999));
    assert!(node.is_expired_at(30_000_000_000));
    assert_eq!(node.remaining_at(0), 30_000_000_000);
    assert_eq!(node.remaining_at(10_000_000_000), 20_000_000_000);
    assert_eq!(node.remaining_at(40_000_000_000), 0);
    assert!(node.time_remaining() <= 30_000_000_000);
    assert!(!node.is_expired());
}

#[test]
fn node_collect_at_dissolves_once_ttl_passes() {
    let mut early = EphemeralNode::new(NodeId([6u8; 8]), Duration::from_millis(1_000).as_nanos());
    early.deposit(vec![7, 8]).unwrap();
    assert_eq!(early.collect_at(999_999_999), Some(vec![7, 8]));
    assert_eq!(early.state, NodeState::Active);
    assert_eq!(early.collect_at(0), None);

    let mut late = EphemeralNode::new(NodeId([7u8; 8]), Duration::from_millis(1_000).as_nanos());
    late.deposit(vec![7, 8]).unwrap();
    assert_eq!(late.collect_at(1_000_000_000), None);
    assert_eq!(late.state, NodeState::Dissolved);
    assert_eq!(late.deposit(vec![1]), Err("node already dissolved"));
}

#[test]
fn node_check_ttl_at_keeps_a_live_node() {
    let mut node = EphemeralNode::new(NodeId([8u8; 8]), Duration::from_millis(5).as_nanos());
    node.deposit(vec![3]).unwrap();
    node.check_ttl_at(4_999_999);
    assert_eq!(node.state, NodeState::Active);
    node.check_ttl_at(5_000_000);
    assert_eq!(node.state, NodeState::Dissolved);
    assert_eq!(node.collect(), None);
}

#[test]
fn zero_ttl_node_has_no_time_left() {
    let mut node = EphemeralNode::new(NodeId([9u8; 8]), Duration::from_secs(0).as_nanos());
    assert_eq!(node.time_remaining(), 0);
    node.check_ttl();
    assert_eq!(node.state, NodeState::Dissolved);
}

#[test]
fn header_version_check_accepts_current() {
    let ss = SharedSecret([0u8; 32]);
    let sid = SessionId::from_shared_secret(&ss);
    let h = PacketHeader::new(PacketType::Fragment, sid);
    assert!(h.validate_version().is_ok());
}

#[test]
fn header_version_check_rejects_future() {
    let ss = SharedSecret([0u8; 32]);
    let sid = SessionId::from_shared_secret(&ss);
    let mut h = PacketHeader::new(PacketType::Fragment, sid);
    h.version = 99;
    assert!(h.validate_version().is_err());
}

#[test]
fn handshake_init_replay_check_accepts_fresh() {
    let ss = SharedSecret([0xBB; 32]);
    let sid = SessionId::from_shared_secret(&ss);
    let h = HandshakeInit::new(sid, vec![0u8; 8], vec![0u8; 8]).unwrap();
    assert!(h.validate_replay().is_ok(), "Fresh handshake must be accepted");
}

#[test]
fn handshake_init_replay_check_rejects_old() {
    let ss = SharedSecret([0xCC; 32]);
    let sid = SessionId::from_shared_secret(&ss);
    let mut h = HandshakeInit::new(sid, vec![], vec![]).unwrap();
    h.timestamp_secs = h.timestamp_secs.saturating_sub(REPLAY_WINDOW_SECS + 1);
    assert!(h.validate_replay().is_err(), "Old handshake must be rejected");
}

#[test]
fn handshake_nonces_differ_per_packet() {
    let ss = SharedSecret([0xDD; 32]);
    let sid = SessionId::from_shared_secret(&ss);
    let h1 = HandshakeInit::new(sid, vec![], vec![]).unwrap();
    let h2 = HandshakeInit::new(sid, vec![], vec![]).unwrap();
    assert_ne!(h1.nonce, h2.nonce, "Each handshake must have a unique nonce");
}

#[test]
fn replay_window_edges() {
    assert!(check_replay(1000, 1000 + REPLAY_WINDOW_SECS).is_ok());
    assert!(check_replay(1000, 1001 + REPLAY_WINDOW_SECS).is_err());
    assert!(check_replay(1005, 1000).is_ok());
    assert!(check_replay(1006, 1000).is_err());
    assert_eq!(PROTOCOL_VERSION, 1);
}

#[test]
fn both_sides_derive_same_topology() {
    let bob_kp = KeyPair::generate().unwrap();
    let bob_pk = bob_kp.kem_pk.clone();
    let (mut alice, ct) = Session::new_initiator(&bob_pk).unwrap();
    let mut bob = Session::new_responder(bob_kp, &ct).unwrap();
    alice.establish(None).unwrap();
    bob.establish(None).unwrap();

    let alice_nodes: Vec<_> = alice.topology.as_ref().unwrap().nodes.iter().map(|n| n.0).collect();
    let bob_nodes: Vec<_> = bob.topology.as_ref().unwrap().nodes.iter().map(|n| n.0).collect();
    assert_eq!(alice_nodes, bob_nodes, "Both sides must derive identical topology");
}

#[test]
fn session_lifecycle() {
    let bob_kp = KeyPair::generate().unwrap();
    let bob_pk = bob_kp.kem_pk.clone();
    let (mut alice, _ct) = Session::new_initiator(&bob_pk).unwrap();
    assert_eq!(alice.state, TransitState::Pending);
    alice.establish(None).unwrap();
    assert_eq!(alice.state, TransitState::Established);
    assert_eq!(alice.active_node_count(), 7);
    assert_eq!(alice.active_count_at(&vec![0u128; 7]), 7);
    assert_eq!(alice.active_count_at(&vec![30_000_000_000u128; 7]), 0);
    let mut mixed = vec![0u128; 7];
    mixed[2] = 30_000_000_000;
    mixed[5] = 31_000_000_000;
    assert_eq!(alice.active_count_at(&mixed), 5);
    assert!(alice.time_remaining() <= 30_000_000_000);
    assert_eq!(alice.remaining_at(12_000_000_000), 18_000_000_000);
    assert_eq!(alice.remaining_at(31_000_000_000), 0);
    assert!(alice.check_ttl_at(29_999_999_999).is_ok());
    assert_eq!(alice.check_ttl_at(30_000_000_000), Err(polygone::error::PolygoneError::SessionExpired));
    assert!(alice.establish(None).is_err());
    assert_eq!(alice.state, TransitState::Established);
    alice.dissolve();
    assert_eq!(alice.state, TransitState::Dissolved);
    assert_eq!(alice.active_node_count(), 0);
}

#[test]
fn topology_is_undirected_and_deterministic() {
    let key = [5u8; 32];
    let t1 = Topology::derive(&key, TopologyParams::default()).unwrap();
    let t2 = Topology::derive(&key, TopologyParams::default()).unwrap();
    assert_eq!(t1.edges, t2.edges);
    assert_eq!(t1.nodes.len(), 7);
    for (i, ns) in t1.edges.iter().enumerate() {
        for &j in ns {
            assert!(t1.edges[j].contains(&i));
        }
    }
}

#[test]
fn node_id_round_trip() {
    let id = NodeId::from_bytes(&[1, 2, 3, 4, 5, 6, 7, 8]).unwrap();
    assert_eq!(id.as_bytes(), &[1, 2, 3, 4, 5, 6, 7, 8]);
    assert!(NodeId::from_bytes(&[1, 2]).is_none());
}

#[test]
fn test_peer_discovery() {
    let discovery = PeerDiscovery::new(Vec::new());
    assert_eq!(discovery.peer_count(), 0);
    assert!(!discovery.has_peers());
}

#[test]
fn peers_are_known_once() {
    let mut discovery = PeerDiscovery::new(vec![PeerId(vec![9])]);
    discovery.add_peer(PeerId(vec![1, 2]));
    discovery.add_peer(PeerId(vec![3]));
    discovery.add_peer(PeerId(vec![1, 2]));
    assert_eq!(discovery.peer_count(), 2);
    assert!(discovery.has_peers());
    assert_eq!(discovery.known_peers(), vec![PeerId(vec![1, 2]), PeerId(vec![3])]);
    assert_eq!(discovery.bootstrap_nodes(), vec![PeerId(vec![9])]);
}

#[test]
fn topology_respects_connection_cap() {
    for seed in 0u8..16 {
        let key = [seed; 32];
        let t = Topology::derive(&key, TopologyParams::default()).unwrap();
        for (i, ns) in t.edges.iter().enumerate() {
            assert!(ns.len() <= 3);
            assert!(!ns.contains(&i));
        }
        let tight = Topology::derive(&key, TopologyParams { node_count: 7, threshold: 4, max_edges_per_node: 1 }).unwrap();
        for ns in tight.edges.iter() {
            assert!(ns.len() <= 1);
        }
    }
}

#[test]
fn node_lifetime_below_a_millisecond() {
    let mut node = EphemeralNode::new(NodeId([10u8; 8]), Duration::from_nanos(500).as_nanos());
    assert!(!node.is_expired_at(499));
    assert!(node.is_expired_at(500));
    assert_eq!(node.remaining_at(200), 300);
    node.deposit(vec![1]).unwrap();
    assert_eq!(node.collect_at(500), None);
    assert_eq!(node.state, NodeState::Dissolved);
}

#[test]
fn establish_at_decides_by_elapsed_time() {
    let bob_kp = KeyPair::generate().unwrap();
    let bob_pk = bob_kp.kem_pk.clone();
    let (mut late, _ct) = Session::new_initiator(&bob_pk).unwrap();
    assert_eq!(late.establish_at(None, 30_000_000_000), Err(polygone::error::PolygoneError::SessionExpired));
    assert_eq!(late.state, TransitState::Pending);
    let (mut fresh, _ct) = Session::new_initiator(&bob_pk).unwrap();
    assert_eq!(fresh.establish_at(None, 29_999_999_999), Ok(()));
    assert_eq!(fresh.state, TransitState::Established);
    assert_eq!(fresh.topology.as_ref().unwrap().nodes.len(), 7);
    assert!(fresh.establish_at(None, 0).is_err());
    assert_eq!(fresh.state, TransitState::Established);
    let (mut bad, _ct) = Session::new_initiator(&bob_pk).unwrap();
    let p = TopologyParams { node_count: 3, threshold: 4, max_edges_per_node: 40 };
    assert!(matches!(bad.establish_at(Some(p), 0), Err(polygone::error::PolygoneError::TopologyDerivation(_))));
}

#[test]
fn topology_accepts_many_picks_when_nothing_is_drawn() {
    let key = [1u8; 32];
    let none = Topology::derive(&key, TopologyParams { node_count: 0, threshold: 0, max_edges_per_node: 40 }).unwrap();
    assert!(none.nodes.is_empty() && none.edges.is_empty());
    assert!(Topology::derive(&key, TopologyParams { node_count: 2, threshold: 3, max_edges_per_node: 40 }).is_err());
}
