//! The node's own state, its peers, and the typestate builder that puts a
//! node together before it starts.
use std::collections::HashSet;

use rand::rngs::StdRng;
use rand::Rng;
use tokio::net::UdpSocket;
use vstd::prelude::*;
use vstd::std_specs::iter::IteratorSpec;

verus! {

/// The tokio UDP socket a node listens on. Verus sees nothing inside it: the
/// library only carries it from the builder to the `NodeSocket`.
#[verifier::external_type_specification]
#[verifier::external_body]
pub struct ExUdpSocket(tokio::net::UdpSocket);

/// rand's standard generator, which the election timer draws from. Verus sees
/// nothing inside it.
#[verifier::external_type_specification]
#[verifier::external_body]
pub struct ExStdRng(rand::rngs::StdRng);

/// The part a node plays in the current term.
#[derive(Debug)]
pub enum Role {
    Leader,
    Follower,
    Candidate { votes: u64, vote_set: HashSet<u64> },
}

/// `Role` with the vote set seen as a mathematical set.
pub enum RoleView {
    Leader,
    Follower,
    Candidate { votes: u64, vote_set: Set<u64> },
}

impl View for Role {
    type V = RoleView;

    open spec fn view(&self) -> RoleView {
        match self {
            Role::Leader => RoleView::Leader,
            Role::Follower => RoleView::Follower,
            Role::Candidate { votes, vote_set } => RoleView::Candidate {
                votes: *votes,
                vote_set: vote_set@,
            },
        }
    }
}

/// A copy of a vote set, built element by element.
fn copy_vote_set(set: &HashSet<u64>) -> (r: HashSet<u64>)
    ensures
        r@ == set@,
{
    broadcast use vstd::std_specs::hash::group_hash_axioms;

    let mut out: HashSet<u64> = HashSet::new();
    assert(set.iter().remaining().unref().to_set() == set@);
    for k in it: set.iter()
        invariant
            forall|x: u64| #[trigger] out@.contains(x) ==> set@.contains(x),
            forall|x: u64|
                #[trigger] set@.contains(x) ==> out@.contains(x) || exists|j: int|
                    it.index() <= j < it.seq().len() && *it.seq()[j] == x,
            it.seq().unref().to_set() == set@,
    {
        proof {
            assert(it.seq().unref().to_set().contains(*k));
            assert(set@.contains(*k));
        }
        out.insert(*k);
    }
    assert(out@ =~= set@);
    out
}

impl Clone for Role {
    fn clone(&self) -> (r: Self)
        ensures
            r@ == self@,
    {
        match self {
            Role::Leader => Role::Leader,
            Role::Follower => Role::Follower,
            Role::Candidate { votes, vote_set } => Role::Candidate {
                votes: *votes,
                vote_set: copy_vote_set(vote_set),
            },
        }
    }
}

/// Assembles a `Node`. `Soc` records whether the socket is known yet
/// (`NoSocket` or `Socket`), `Ser` whether the server address is
/// (`NoServer` or its resolved text).
#[derive(Default, Debug)]
pub struct NodeBuilder<Soc, Ser> {
    pub id: u64,
    pub peers: Vec<Peer>,
    pub server: Ser,
    pub curent_term: u64,
    pub voted_for: Option<u64>,
    pub socket: Soc,
    pub log_index: u64,
    pub log_term: u64,
}

/// The builder holds no socket yet.
pub struct NoSocket;

/// The builder holds the socket the node will listen on.
pub struct Socket(pub UdpSocket);

/// The builder holds no server address yet.
pub struct NoServer;

/// Marker for the leader role.
pub struct Leader;

/// Marker for the candidate role.
pub struct Candidate;

/// Marker for the follower role.
pub struct Follower;

/// A Raft node: its identity, its peers, and its persistent and volatile
/// state.
#[derive(Debug, Clone)]
pub struct Node {
    pub id: u64,
    pub peers: Vec<Peer>,
    /// The address the node listens on, in its resolved textual form.
    pub server: String,
    pub current_term: u64,
    pub voted_for: Option<u64>,
    pub role: Role,
    pub log_index: u64,
    pub log_term: u64,
}

/// The listening half of a node.
pub struct NodeSocket {
    pub id: u64,
    pub socket: UdpSocket,
    pub server: String,
}

/// Another node of the cluster, reached at `server`.
#[derive(Default, Debug, Clone)]
pub struct Peer {
    pub id: u64,
    pub server: String,
}

impl NodeBuilder<NoSocket, NoServer> {
    /// A builder for node 0 in term 1, with no peers, no vote and an empty log.
    pub fn new() -> (b: Self)
        ensures
            b.id == 0,
            b.peers@ == Seq::<Peer>::empty(),
            b.curent_term == 1,
            b.voted_for is None,
            b.log_index == 0,
            b.log_term == 0,
    {
        Self {
            id: 0,
            server: NoServer,
            peers: Vec::new(),
            curent_term: 1,
            voted_for: None,
            socket: NoSocket,
            log_index: 0,
            log_term: 0,
        }
    }

    /// Records the address the node will listen on, once it has been
    /// resolved; every other field is kept.
    pub fn server(self, server: String) -> (b: NodeBuilder<NoSocket, String>)
        ensures
            b.server == server,
            b.id == self.id,
            b.peers == self.peers,
            b.curent_term == self.curent_term,
            b.voted_for == self.voted_for,
            b.log_index == self.log_index,
            b.log_term == self.log_term,
    {
        NodeBuilder {
            id: self.id,
            server,
            peers: self.peers,
            curent_term: self.curent_term,
            voted_for: self.voted_for,
            log_index: self.log_index,
            log_term: self.log_term,
            socket: NoSocket,
        }
    }
}

impl NodeBuilder<NoSocket, String> {
    /// Hands the builder the socket the node will listen on; every other
    /// field is kept.
    pub fn socket(self, socket: UdpSocket) -> (b: NodeBuilder<Socket, String>)
        ensures
            b.socket.0 == socket,
            b.server == self.server,
            b.id == self.id,
            b.peers == self.peers,
            b.curent_term == self.curent_term,
            b.voted_for == self.voted_for,
            b.log_index == self.log_index,
            b.log_term == self.log_term,
    {
        NodeBuilder {
            id: self.id,
            server: self.server,
            peers: self.peers,
            curent_term: self.curent_term,
            voted_for: self.voted_for,
            socket: Socket(socket),
            log_index: self.log_index,
            log_term: self.log_term,
        }
    }
}

impl<Soc, Ser> NodeBuilder<Soc, Ser> {
    /// Replaces the peer list; every other field is kept.
    pub fn peers(self, peers: Vec<Peer>) -> (b: NodeBuilder<Soc, Ser>)
        ensures
            b.peers == peers,
            b.id == self.id,
            b.server == self.server,
            b.curent_term == self.curent_term,
            b.voted_for == self.voted_for,
            b.socket == self.socket,
            b.log_index == self.log_index,
            b.log_term == self.log_term,
    {
        NodeBuilder {
            id: self.id,
            server: self.server,
            peers,
            curent_term: self.curent_term,
            voted_for: self.voted_for,
            socket: self.socket,
            log_index: self.log_index,
            log_term: self.log_term,
        }
    }
}

impl NodeBuilder<Socket, String> {
    /// Splits the finished builder into the node, which starts as a follower
    /// with the builder's term, vote and log position, and the socket it
    /// listens on.
    pub fn build(self) -> (r: (Node, NodeSocket))
        ensures
            r.0.id == self.id,
            r.0.peers == self.peers,
            r.0.server == self.server,
            r.0.current_term == self.curent_term,
            r.0.voted_for == self.voted_for,
            r.0.role is Follower,
            r.0.log_index == self.log_index,
            r.0.log_term == self.log_term,
            r.1.id == self.id,
            r.1.socket == self.socket.0,
            r.1.server@ == self.server@,
    {
        let server_copy = self.server.clone();
        let node = Node {
            id: self.id,
            server: self.server,
            peers: self.peers,
            current_term: self.curent_term,
            voted_for: self.voted_for,
            role: Role::Follower,
            log_index: self.log_index,
            log_term: self.log_term,
        };
        let node_socket = NodeSocket { id: self.id, socket: self.socket.0, server: server_copy };
        (node, node_socket)
    }
}

impl Node {
    /// A builder for node 0 in term 0, with no peers, no vote and an empty log.
    pub fn builder() -> (b: NodeBuilder<NoSocket, NoServer>)
        ensures
            b.id == 0,
            b.peers@ == Seq::<Peer>::empty(),
            b.curent_term == 0,
            b.voted_for is None,
            b.log_index == 0,
            b.log_term == 0,
    {
        NodeBuilder {
            id: 0,
            server: NoServer,
            peers: Vec::new(),
            curent_term: 0,
            voted_for: None,
            socket: NoSocket,
            log_index: 0,
            log_term: 0,
        }
    }

    /// A builder for node `id` in term 1, with no peers, no vote and an
    /// empty log.
    pub fn builder_with_data(id: u64) -> (b: NodeBuilder<NoSocket, NoServer>)
        ensures
            b.id == id,
            b.peers@ == Seq::<Peer>::empty(),
            b.curent_term == 1,
            b.voted_for is None,
            b.log_index == 0,
            b.log_term == 0,
    {
        NodeBuilder {
            id,
            server: NoServer,
            peers: Vec::new(),
            curent_term: 1,
            voted_for: None,
            socket: NoSocket,
            log_index: 0,
            log_term: 0,
        }
    }
}

impl Peer {
    /// The peer `id`, reached at `server`.
    pub fn new(id: u64, server: String) -> (p: Self)
        ensures
            p.id == id,
            p.server == server,
    {
        Self { id, server }
    }
}

/// Calls `rand::Rng::gen_range(low..high)` on `rng`. rand documents that the
/// value is drawn from the half-open range and that the call panics on an
/// empty range, which `requires` leaves out. Which value comes out depends on
/// the generator's state and is left unsaid.
#[verifier::external_body]
fn random_in_range(rng: &mut StdRng, low: u64, high: u64) -> (r: u64)
    requires
        low < high,
    ensures
        low <= r < high,
{
    rng.gen_range(low..high)
}

/// The lowest election timeout, in milliseconds.
pub const ELECTION_TIMEOUT_MIN_MS: u64 = 2000;

/// One past the highest election timeout, in milliseconds.
pub const ELECTION_TIMEOUT_MAX_MS: u64 = 3000;

/// Draws the next election timeout, in milliseconds, from `rng`: some value
/// in `2000..3000`.
pub fn election_timeout_ms(rng: &mut StdRng) -> (ms: u64)
    ensures
        ELECTION_TIMEOUT_MIN_MS <= ms < ELECTION_TIMEOUT_MAX_MS,
{
    random_in_range(rng, ELECTION_TIMEOUT_MIN_MS, ELECTION_TIMEOUT_MAX_MS)
}

} // verus!
