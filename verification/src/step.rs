//! What a node decides on each event: the next state and the message, if
//! any, to broadcast to its peers. Waiting for the event and sending the
//! message are left to the caller.
use vstd::prelude::*;

use crate::message::data::MsgType;
use crate::message::{AppendRequest, Data, Response, VoteRequest};
use crate::node::{Node, Role, RoleView};

verus! {

/// What a node waits for between two steps.
#[derive(Debug)]
pub enum Event {
    /// The election timer expired.
    Timeout,
    /// The timer channel failed before it fired.
    TimerFailed,
    /// A message arrived from a peer.
    Message(Data),
    /// The message channel failed before anything arrived.
    MessageFailed,
}

/// Why a step failed. The node's state is left as it was.
#[derive(Debug, Clone, Copy, PartialEq, Eq)]
pub enum StepError {
    TimerFailed,
    MessageFailed,
}

/// The part of a node's state that steps change.
pub struct RaftState {
    pub current_term: u64,
    pub voted_for: Option<u64>,
    pub role: RoleView,
    pub log_index: u64,
    pub log_term: u64,
}

/// What one step produces: the message to broadcast, if any, or the reason
/// the step failed.
pub type StepResult = Result<Option<Data>, StepError>;

impl Node {
    /// The node's Raft state as a mathematical value.
    pub open spec fn state(&self) -> RaftState {
        RaftState {
            current_term: self.current_term,
            voted_for: self.voted_for,
            role: self.role@,
            log_index: self.log_index,
            log_term: self.log_term,
        }
    }
}

/// A reply carrying `term` and whether the request was granted.
pub open spec fn response_msg(term: u64, status: bool) -> Data {
    Data { msg_type: Some(MsgType::Response(Response { term, status })) }
}

/// The vote request a node in state `s` sends when its election timer
/// expires: it asks for the term after its own and offers its log position.
pub open spec fn vote_request_msg(s: RaftState, id: u64) -> Data {
    Data {
        msg_type: Some(
            MsgType::Vote(
                VoteRequest {
                    term: (s.current_term + 1) as u64,
                    candidate_id: id,
                    last_log_idx: s.log_index,
                    last_log_term: s.log_term,
                },
            ),
        ),
    }
}

/// A vote request from a later term: the node moves to that term, votes for
/// the candidate, becomes a follower and grants the vote.
pub open spec fn adopt_candidate(s: RaftState, v: VoteRequest) -> (RaftState, StepResult) {
    (
        RaftState {
            current_term: v.term,
            voted_for: Some(v.candidate_id),
            role: RoleView::Follower,
            ..s
        },
        Ok(Some(response_msg(v.term, true))),
    )
}

/// Whether an append request fits the follower's log: it comes from a later
/// term and continues right after the follower's last entry.
pub open spec fn append_matches(s: RaftState, a: AppendRequest) -> bool {
    &&& a.term > s.current_term
    &&& a.prev_log_idx == s.log_index
    &&& a.prev_log_term == s.log_term
}

/// A follower's answer to a message.
pub open spec fn follower_on_message(s: RaftState, d: Data) -> (RaftState, StepResult) {
    match d.msg_type {
        Some(MsgType::Vote(v)) => if v.term > s.current_term {
            adopt_candidate(s, v)
        } else {
            (s, Ok(None))
        },
        Some(MsgType::Append(a)) => if append_matches(s, a) {
            let s2 = if a.entries.len() > 0 {
                RaftState { log_index: (s.log_index + 1) as u64, log_term: a.term, ..s }
            } else {
                s
            };
            (s2, Ok(Some(response_msg(s.current_term, true))))
        } else {
            (s, Ok(Some(response_msg(s.current_term, false))))
        },
        _ => (s, Ok(None)),
    }
}

/// Whether a candidate holding `votes` wins when one more vote is granted:
/// `votes + 1` must exceed half its peer count, rounded down. The cluster
/// holds `n_peers + 1` nodes, so with an even number of peers this is a
/// strict majority of the cluster, and with an odd number exactly half the
/// cluster is enough.
pub open spec fn wins_with_next_vote(votes: u64, n_peers: nat) -> bool {
    votes + 1 > n_peers / 2
}

/// A candidate's answer to a message.
pub open spec fn candidate_on_message(
    s: RaftState,
    votes: u64,
    vote_set: Set<u64>,
    n_peers: nat,
    d: Data,
) -> (RaftState, StepResult) {
    match d.msg_type {
        Some(MsgType::Vote(v)) => if v.term > s.current_term {
            adopt_candidate(s, v)
        } else {
            match s.voted_for {
                None => (
                    RaftState {
                        voted_for: Some(v.candidate_id),
                        role: RoleView::Follower,
                        ..s
                    },
                    Ok(Some(response_msg(s.current_term, true))),
                ),
                Some(c) => (s, Ok(Some(response_msg(s.current_term, c == v.candidate_id)))),
            }
        },
        Some(MsgType::Response(r)) => if r.term > s.current_term {
            (RaftState { current_term: r.term, role: RoleView::Follower, ..s }, Ok(None))
        } else if r.status {
            let role = if wins_with_next_vote(votes, n_peers) {
                RoleView::Leader
            } else {
                RoleView::Candidate { votes: (votes + 1) as u64, vote_set }
            };
            (RaftState { role, ..s }, Ok(None))
        } else {
            (s, Ok(None))
        },
        _ => (s, Ok(None)),
    }
}

/// One step of node `id`, which has `n_peers` peers, from state `s` on event
/// `ev`: the next state and what the step produces. A leader ignores every
/// event. A timer or channel failure changes nothing and is reported. When
/// the election timer expires, a follower becomes a candidate with its own
/// vote, and a candidate stays one; both broadcast a vote request.
pub open spec fn next(s: RaftState, id: u64, n_peers: nat, ev: Event) -> (RaftState, StepResult) {
    match s.role {
        RoleView::Leader => (s, Ok(None)),
        RoleView::Follower => match ev {
            Event::TimerFailed => (s, Err(StepError::TimerFailed)),
            Event::MessageFailed => (s, Err(StepError::MessageFailed)),
            Event::Timeout => (
                RaftState { role: RoleView::Candidate { votes: 1, vote_set: Set::empty() }, ..s },
                Ok(Some(vote_request_msg(s, id))),
            ),
            Event::Message(d) => follower_on_message(s, d),
        },
        RoleView::Candidate { votes, vote_set } => match ev {
            Event::TimerFailed => (s, Err(StepError::TimerFailed)),
            Event::MessageFailed => (s, Err(StepError::MessageFailed)),
            Event::Timeout => (s, Ok(Some(vote_request_msg(s, id)))),
            Event::Message(d) => candidate_on_message(s, votes, vote_set, n_peers, d),
        },
    }
}

/// Whether the step's counters stay within `u64`: the requested term after
/// a timeout, the log index after an accepted non-empty append, and the
/// vote count after a granted vote.
pub open spec fn step_fits(s: RaftState, ev: Event) -> bool {
    match ev {
        Event::Timeout => s.role is Leader || s.current_term < u64::MAX,
        Event::Message(d) => match (s.role, d.msg_type) {
            (RoleView::Follower, Some(MsgType::Append(a))) => append_matches(s, a)
                && a.entries.len() > 0 ==> s.log_index < u64::MAX,
            (RoleView::Candidate { votes, .. }, Some(MsgType::Response(r))) => r.term
                <= s.current_term && r.status ==> votes < u64::MAX,
            _ => true,
        },
        _ => true,
    }
}

/// A granted or refused reply carrying `term`.
fn response(term: u64, status: bool) -> (d: Data)
    ensures
        d == response_msg(term, status),
{
    Data { msg_type: Some(MsgType::Response(Response { term, status })) }
}

impl Node {
    /// Whether `step` on `event` keeps its counters within `u64`.
    pub fn step_fits(&self, event: &Event) -> (b: bool)
        ensures
            b == step_fits(self.state(), *event),
    {
        let is_leader = match &self.role {
            Role::Leader => true,
            _ => false,
        };
        match event {
            Event::Timeout => is_leader || self.current_term < u64::MAX,
            Event::Message(d) => match &d.msg_type {
                Some(MsgType::Append(a)) => match &self.role {
                    Role::Follower => !(a.term > self.current_term && a.prev_log_idx
                        == self.log_index && a.prev_log_term == self.log_term && a.entries.len()
                        > 0) || self.log_index < u64::MAX,
                    _ => true,
                },
                Some(MsgType::Response(r)) => match &self.role {
                    Role::Candidate { votes, .. } => !(r.term <= self.current_term && r.status)
                        || *votes < u64::MAX,
                    _ => true,
                },
                _ => true,
            },
            _ => true,
        }
    }

    /// The vote request this node broadcasts when its election timer expires.
    fn vote_request(&self) -> (d: Data)
        requires
            self.current_term < u64::MAX,
        ensures
            d == vote_request_msg(self.state(), self.id),
    {
        Data {
            msg_type: Some(
                MsgType::Vote(
                    VoteRequest {
                        term: self.current_term + 1,
                        candidate_id: self.id,
                        last_log_idx: self.log_index,
                        last_log_term: self.log_term,
                    },
                ),
            ),
        }
    }

    /// Takes one step on `event`: updates the node's state and returns the
    /// message to broadcast to every peer, if any, as `next` describes.
    pub fn step(&mut self, event: Event) -> (r: StepResult)
        requires
            step_fits(old(self).state(), event),
        ensures
            final(self).id == old(self).id,
            final(self).peers == old(self).peers,
            final(self).server == old(self).server,
            (final(self).state(), r) == next(
                old(self).state(),
                old(self).id,
                old(self).peers.len() as nat,
                event,
            ),
    {
        match &self.role {
            Role::Leader => Ok(None),
            Role::Follower => self.follower_step(event),
            Role::Candidate { .. } => self.candidate_step(event),
        }
    }

    fn follower_step(&mut self, event: Event) -> (r: StepResult)
        requires
            old(self).role is Follower,
            step_fits(old(self).state(), event),
        ensures
            final(self).id == old(self).id,
            final(self).peers == old(self).peers,
            final(self).server == old(self).server,
            (final(self).state(), r) == next(
                old(self).state(),
                old(self).id,
                old(self).peers.len() as nat,
                event,
            ),
    {
        match event {
            Event::TimerFailed => Err(StepError::TimerFailed),
            Event::MessageFailed => Err(StepError::MessageFailed),
            Event::Timeout => {
                let msg = self.vote_request();
                self.role = Role::Candidate { votes: 1, vote_set: std::collections::HashSet::new() };
                Ok(Some(msg))
            },
            Event::Message(d) => match d.msg_type {
                Some(MsgType::Vote(v)) => {
                    if v.term > self.current_term {
                        self.current_term = v.term;
                        self.voted_for = Some(v.candidate_id);
                        self.role = Role::Follower;
                        Ok(Some(response(self.current_term, true)))
                    } else {
                        Ok(None)
                    }
                },
                Some(MsgType::Append(a)) => {
                    if a.term > self.current_term && a.prev_log_idx == self.log_index
                        && a.prev_log_term == self.log_term {
                        if a.entries.len() > 0 {
                            self.log_index = self.log_index + 1;
                            self.log_term = a.term;
                        }
                        Ok(Some(response(self.current_term, true)))
                    } else {
                        Ok(Some(response(self.current_term, false)))
                    }
                },
                _ => Ok(None),
            },
        }
    }

    fn candidate_step(&mut self, event: Event) -> (r: StepResult)
        requires
            old(self).role is Candidate,
            step_fits(old(self).state(), event),
        ensures
            final(self).id == old(self).id,
            final(self).peers == old(self).peers,
            final(self).server == old(self).server,
            (final(self).state(), r) == next(
                old(self).state(),
                old(self).id,
                old(self).peers.len() as nat,
                event,
            ),
    {
        match event {
            Event::TimerFailed => Err(StepError::TimerFailed),
            Event::MessageFailed => Err(StepError::MessageFailed),
            Event::Timeout => Ok(Some(self.vote_request())),
            Event::Message(d) => match d.msg_type {
                Some(MsgType::Vote(v)) => {
                    if v.term > self.current_term {
                        self.current_term = v.term;
                        self.voted_for = Some(v.candidate_id);
                        self.role = Role::Follower;
                        Ok(Some(response(self.current_term, true)))
                    } else {
                        match self.voted_for {
                            None => {
                                self.voted_for = Some(v.candidate_id);
                                self.role = Role::Follower;
                                Ok(Some(response(self.current_term, true)))
                            },
                            Some(c) => Ok(Some(response(self.current_term, c == v.candidate_id))),
                        }
                    }
                },
                Some(MsgType::Response(resp)) => {
                    if resp.term > self.current_term {
                        self.current_term = resp.term;
                        self.role = Role::Follower;
                    } else if resp.status {
                        let mut taken = Role::Follower;
                        std::mem::swap(&mut self.role, &mut taken);
                        match taken {
                            Role::Candidate { votes, vote_set } => {
                                if votes + 1 > self.peers.len() as u64 / 2 {
                                    self.role = Role::Leader;
                                } else {
                                    self.role = Role::Candidate { votes: votes + 1, vote_set };
                                }
                            },
                            other => {
                                self.role = other;
                            },
                        }
                    }
                    Ok(None)
                },
                _ => Ok(None),
            },
        }
    }
}

} // verus!
