use raft::node::{election_timeout_ms, Node, NodeBuilder, Peer, Role};
use rand::rngs::StdRng;
use rand::SeedableRng;

fn two_peers() -> Vec<Peer> {
    vec![
        Peer::new(2, "127.0.0.1:8082".to_string()),
        Peer::new(3, "127.0.0.1:8084".to_string()),
    ]
}

#[test]
fn new_builder_starts_in_term_one() {
    let b = NodeBuilder::new();
    assert_eq!(b.id, 0);
    assert!(b.peers.is_empty());
    assert_eq!(b.curent_term, 1);
    assert_eq!(b.voted_for, None);
    assert_eq!(b.log_index, 0);
    assert_eq!(b.log_term, 0);
}

#[test]
fn node_builder_starts_in_term_zero() {
    let b = Node::builder();
    assert_eq!(b.id, 0);
    assert!(b.peers.is_empty());
    assert_eq!(b.curent_term, 0);
    assert_eq!(b.voted_for, None);
    assert_eq!(b.log_index, 0);
    assert_eq!(b.log_term, 0);
}

#[test]
fn builder_with_data_keeps_id() {
    let b = Node::builder_with_data(7);
    assert_eq!(b.id, 7);
    assert!(b.peers.is_empty());
    assert_eq!(b.curent_term, 1);
    assert_eq!(b.voted_for, None);
}

#[test]
fn peer_new_keeps_fields() {
    let p = Peer::new(4, "10.0.0.1:9000".to_string());
    assert_eq!(p.id, 4);
    assert_eq!(p.server, "10.0.0.1:9000");
}

#[test]
fn peers_replaces_only_the_peer_list() {
    let b = Node::builder_with_data(5).peers(two_peers());
    assert_eq!(b.id, 5);
    assert_eq!(b.curent_term, 1);
    assert_eq!(b.peers.len(), 2);
    assert_eq!(b.peers[0].id, 2);
    assert_eq!(b.peers[1].server, "127.0.0.1:8084");
}

#[test]
fn server_records_the_address() {
    let b = Node::builder_with_data(5).peers(two_peers()).server("127.0.0.1:8080".to_string());
    assert_eq!(b.server, "127.0.0.1:8080");
    assert_eq!(b.id, 5);
    assert_eq!(b.peers.len(), 2);
    assert_eq!(b.curent_term, 1);
}

#[test]
fn build_makes_a_follower_and_its_socket() {
    let rt = tokio::runtime::Runtime::new().unwrap();
    let socket = rt.block_on(tokio::net::UdpSocket::bind("127.0.0.1:0")).unwrap();
    let local = socket.local_addr().unwrap();
    let _guard = rt.enter();
    let mut b = Node::builder_with_data(9).peers(two_peers()).server(local.to_string());
    b.voted_for = Some(2);
    b.log_index = 4;
    b.log_term = 3;
    let (node, node_socket) = b.socket(socket).build();
    assert_eq!(node.id, 9);
    assert_eq!(node.current_term, 1);
    assert_eq!(node.voted_for, Some(2));
    assert!(matches!(node.role, Role::Follower));
    assert_eq!(node.log_index, 4);
    assert_eq!(node.log_term, 3);
    assert_eq!(node.peers.len(), 2);
    assert_eq!(node.server, local.to_string());
    assert_eq!(node_socket.id, 9);
    assert_eq!(node_socket.server, local.to_string());
    assert_eq!(node_socket.socket.local_addr().unwrap(), local);
}

#[test]
fn election_timeout_is_between_two_and_three_seconds() {
    let mut rng = StdRng::seed_from_u64(42);
    for _ in 0..1000 {
        let ms = election_timeout_ms(&mut rng);
        assert!((2000..3000).contains(&ms));
    }
}

#[test]
fn election_timeouts_vary() {
    let mut rng = StdRng::seed_from_u64(7);
    let first = election_timeout_ms(&mut rng);
    let mut differs = false;
    for _ in 0..100 {
        if election_timeout_ms(&mut rng) != first {
            differs = true;
        }
    }
    assert!(differs);
}

#[test]
fn role_clone_keeps_votes_and_vote_set() {
    let mut set = std::collections::HashSet::new();
    set.insert(3u64);
    set.insert(5u64);
    let role = Role::Candidate { votes: 2, vote_set: set.clone() };
    match role.clone() {
        Role::Candidate { votes, vote_set } => {
            assert_eq!(votes, 2);
            assert_eq!(vote_set, set);
        }
        _ => panic!("clone changed the role"),
    }
}
