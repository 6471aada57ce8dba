//! The messages that Raft nodes exchange.
use vstd::prelude::*;

pub mod data;
pub mod request;

verus! {

/// A request stamped with the sender's term.
#[derive(Clone, Debug, PartialEq, Eq)]
pub struct Request {
    pub term: u64,
    pub requests: Option<request::Requests>,
}

/// A candidate asks for a vote in `term`.
#[derive(Clone, Debug, PartialEq, Eq)]
pub struct VoteRequest {
    pub term: u64,
    pub candidate_id: u64,
    pub last_log_idx: u64,
    pub last_log_term: u64,
}

/// A leader asks followers to append `entries` after the entry at
/// (`prev_log_idx`, `prev_log_term`).
#[derive(Clone, Debug, PartialEq, Eq)]
pub struct AppendRequest {
    pub term: u64,
    pub leader_id: u64,
    pub prev_log_idx: u64,
    pub prev_log_term: u64,
    pub leader_commit: u64,
    pub entries: Vec<Entry>,
}

/// One log entry.
#[derive(Clone, Debug, PartialEq, Eq)]
pub struct Entry {
    pub idx: u64,
    pub data: Vec<u8>,
}

/// The answer to a vote or append request: the responder's term and whether
/// the request was granted.
#[derive(Clone, Debug, PartialEq, Eq)]
pub struct Response {
    pub term: u64,
    pub status: bool,
}

/// The envelope that travels between nodes.
#[derive(Clone, Debug, PartialEq, Eq)]
pub struct Data {
    pub msg_type: Option<data::MsgType>,
}

} // verus!
