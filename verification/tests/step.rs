use std::collections::HashSet;

use raft::message::data::MsgType;
use raft::message::{AppendRequest, Data, Entry, Response, VoteRequest};
use raft::node::{Node, Peer, Role};
use raft::step::{Event, StepError};

fn node(role: Role, n_peers: u64) -> Node {
    Node {
        id: 1,
        peers: (0..n_peers).map(|i| Peer::new(i + 2, format!("127.0.0.1:{}", 9000 + i))).collect(),
        server: "127.0.0.1:8080".to_string(),
        current_term: 5,
        voted_for: None,
        role,
        log_index: 3,
        log_term: 4,
    }
}

fn candidate(votes: u64) -> Role {
    Role::Candidate { votes, vote_set: HashSet::new() }
}

fn vote(term: u64, candidate_id: u64) -> Event {
    Event::Message(Data {
        msg_type: Some(MsgType::Vote(VoteRequest { term, candidate_id, last_log_idx: 0, last_log_term: 0 })),
    })
}

fn append(term: u64, prev_log_idx: u64, prev_log_term: u64, n_entries: usize) -> Event {
    Event::Message(Data {
        msg_type: Some(MsgType::Append(AppendRequest {
            term,
            leader_id: 9,
            prev_log_idx,
            prev_log_term,
            leader_commit: 0,
            entries: (0..n_entries).map(|i| Entry { idx: i as u64, data: vec![1, 2] }).collect(),
        })),
    })
}

fn response_event(term: u64, status: bool) -> Event {
    Event::Message(Data { msg_type: Some(MsgType::Response(Response { term, status })) })
}

fn reply(term: u64, status: bool) -> Option<Data> {
    Some(Data { msg_type: Some(MsgType::Response(Response { term, status })) })
}

fn votes_of(n: &Node) -> Option<u64> {
    match &n.role {
        Role::Candidate { votes, .. } => Some(*votes),
        _ => None,
    }
}

#[test]
fn follower_timeout_becomes_candidate_and_asks_for_votes() {
    let mut n = node(Role::Follower, 2);
    let r = n.step(Event::Timeout);
    assert_eq!(
        r,
        Ok(Some(Data {
            msg_type: Some(MsgType::Vote(VoteRequest { term: 6, candidate_id: 1, last_log_idx: 3, last_log_term: 4 })),
        }))
    );
    assert_eq!(votes_of(&n), Some(1));
    match &n.role {
        Role::Candidate { vote_set, .. } => assert!(vote_set.is_empty()),
        _ => panic!("not a candidate"),
    }
    assert_eq!(n.current_term, 5);
}

#[test]
fn candidate_timeout_asks_again_and_stays_candidate() {
    let mut n = node(candidate(2), 4);
    let r = n.step(Event::Timeout);
    assert_eq!(
        r,
        Ok(Some(Data {
            msg_type: Some(MsgType::Vote(VoteRequest { term: 6, candidate_id: 1, last_log_idx: 3, last_log_term: 4 })),
        }))
    );
    assert_eq!(votes_of(&n), Some(2));
}

#[test]
fn follower_grants_vote_from_later_term() {
    let mut n = node(Role::Follower, 2);
    assert_eq!(n.step(vote(7, 3)), Ok(reply(7, true)));
    assert_eq!(n.current_term, 7);
    assert_eq!(n.voted_for, Some(3));
    assert!(matches!(n.role, Role::Follower));
}

#[test]
fn follower_ignores_vote_from_current_term() {
    let mut n = node(Role::Follower, 2);
    assert_eq!(n.step(vote(5, 3)), Ok(None));
    assert_eq!(n.current_term, 5);
    assert_eq!(n.voted_for, None);
}

#[test]
fn follower_appends_matching_entries() {
    let mut n = node(Role::Follower, 2);
    assert_eq!(n.step(append(6, 3, 4, 2)), Ok(reply(5, true)));
    assert_eq!(n.log_index, 4);
    assert_eq!(n.log_term, 6);
    assert_eq!(n.current_term, 5);
}

#[test]
fn follower_accepts_matching_heartbeat_without_change() {
    let mut n = node(Role::Follower, 2);
    assert_eq!(n.step(append(6, 3, 4, 0)), Ok(reply(5, true)));
    assert_eq!(n.log_index, 3);
    assert_eq!(n.log_term, 4);
}

#[test]
fn follower_refuses_mismatched_append() {
    let mut n = node(Role::Follower, 2);
    assert_eq!(n.step(append(5, 3, 4, 1)), Ok(reply(5, false)));
    assert_eq!(n.step(append(6, 2, 4, 1)), Ok(reply(5, false)));
    assert_eq!(n.step(append(6, 3, 3, 1)), Ok(reply(5, false)));
    assert_eq!(n.log_index, 3);
    assert_eq!(n.log_term, 4);
}

#[test]
fn follower_ignores_responses_and_empty_messages() {
    let mut n = node(Role::Follower, 2);
    assert_eq!(n.step(response_event(9, true)), Ok(None));
    assert_eq!(n.step(Event::Message(Data { msg_type: None })), Ok(None));
    assert_eq!(n.current_term, 5);
    assert!(matches!(n.role, Role::Follower));
}

#[test]
fn channel_failures_are_reported_and_change_nothing() {
    let mut n = node(Role::Follower, 2);
    assert_eq!(n.step(Event::TimerFailed), Err(StepError::TimerFailed));
    assert_eq!(n.step(Event::MessageFailed), Err(StepError::MessageFailed));
    let mut c = node(candidate(1), 2);
    assert_eq!(c.step(Event::TimerFailed), Err(StepError::TimerFailed));
    assert_eq!(c.step(Event::MessageFailed), Err(StepError::MessageFailed));
    assert_eq!(votes_of(&c), Some(1));
    assert_eq!(n.current_term, 5);
    assert!(matches!(n.role, Role::Follower));
}

#[test]
fn candidate_steps_down_for_later_vote_request() {
    let mut n = node(candidate(1), 2);
    assert_eq!(n.step(vote(8, 4)), Ok(reply(8, true)));
    assert_eq!(n.current_term, 8);
    assert_eq!(n.voted_for, Some(4));
    assert!(matches!(n.role, Role::Follower));
}

#[test]
fn candidate_without_vote_grants_and_steps_down() {
    let mut n = node(candidate(1), 2);
    assert_eq!(n.step(vote(5, 4)), Ok(reply(5, true)));
    assert_eq!(n.voted_for, Some(4));
    assert!(matches!(n.role, Role::Follower));
}

#[test]
fn candidate_grants_again_to_the_same_candidate() {
    let mut n = node(candidate(1), 2);
    n.voted_for = Some(4);
    assert_eq!(n.step(vote(3, 4)), Ok(reply(5, true)));
    assert_eq!(votes_of(&n), Some(1));
}

#[test]
fn candidate_refuses_another_candidate() {
    let mut n = node(candidate(1), 2);
    n.voted_for = Some(1);
    assert_eq!(n.step(vote(5, 4)), Ok(reply(5, false)));
    assert_eq!(n.voted_for, Some(1));
    assert_eq!(votes_of(&n), Some(1));
}

#[test]
fn candidate_steps_down_for_later_response() {
    let mut n = node(candidate(1), 2);
    assert_eq!(n.step(response_event(9, false)), Ok(None));
    assert_eq!(n.current_term, 9);
    assert!(matches!(n.role, Role::Follower));
}

#[test]
fn candidate_counts_granted_votes_until_majority() {
    let mut n = node(candidate(1), 6);
    assert_eq!(n.step(response_event(5, true)), Ok(None));
    assert_eq!(votes_of(&n), Some(2));
    assert_eq!(n.step(response_event(4, true)), Ok(None));
    assert_eq!(votes_of(&n), Some(3));
    assert_eq!(n.step(response_event(5, true)), Ok(None));
    assert!(matches!(n.role, Role::Leader));
}

#[test]
fn candidate_keeps_its_vote_set_while_counting() {
    let mut set = HashSet::new();
    set.insert(7u64);
    let mut n = node(Role::Candidate { votes: 1, vote_set: set.clone() }, 6);
    assert_eq!(n.step(response_event(5, true)), Ok(None));
    match &n.role {
        Role::Candidate { votes, vote_set } => {
            assert_eq!(*votes, 2);
            assert_eq!(*vote_set, set);
        }
        _ => panic!("not a candidate"),
    }
}

#[test]
fn candidate_with_two_peers_wins_on_first_grant() {
    let mut n = node(candidate(1), 2);
    assert_eq!(n.step(response_event(5, true)), Ok(None));
    assert!(matches!(n.role, Role::Leader));
}

#[test]
fn candidate_ignores_refusals_and_appends() {
    let mut n = node(candidate(1), 6);
    assert_eq!(n.step(response_event(5, false)), Ok(None));
    assert_eq!(n.step(append(9, 3, 4, 1)), Ok(None));
    assert_eq!(votes_of(&n), Some(1));
    assert_eq!(n.current_term, 5);
    assert_eq!(n.log_index, 3);
}

#[test]
fn leader_ignores_every_event() {
    let mut n = node(Role::Leader, 2);
    assert_eq!(n.step(Event::Timeout), Ok(None));
    assert_eq!(n.step(vote(9, 3)), Ok(None));
    assert_eq!(n.step(response_event(9, true)), Ok(None));
    assert_eq!(n.step(Event::TimerFailed), Ok(None));
    assert_eq!(n.current_term, 5);
    assert!(matches!(n.role, Role::Leader));
}

#[test]
fn one_vote_per_term_over_a_run() {
    let mut n = node(Role::Follower, 2);
    assert_eq!(n.step(vote(6, 3)), Ok(reply(6, true)));
    assert_eq!(n.step(Event::Timeout).unwrap().is_some(), true);
    assert_eq!(n.step(vote(6, 4)), Ok(reply(6, false)));
    assert_eq!(n.step(vote(6, 3)), Ok(reply(6, true)));
    assert_eq!(n.voted_for, Some(3));
}

#[test]
fn terms_never_go_back_over_a_run() {
    let mut n = node(candidate(1), 4);
    let mut last = n.current_term;
    let events = vec![vote(3, 2), response_event(2, true), vote(9, 4), append(4, 3, 4, 1), Event::Timeout, response_event(1, true)];
    for e in events {
        let _ = n.step(e);
        assert!(n.current_term >= last);
        last = n.current_term;
    }
}

#[test]
fn step_fits_flags_counter_overflow() {
    let mut n = node(Role::Follower, 2);
    n.current_term = u64::MAX;
    assert!(!n.step_fits(&Event::Timeout));
    assert!(n.step_fits(&vote(3, 2)));
    let mut m = node(Role::Follower, 2);
    m.log_index = u64::MAX;
    assert!(!m.step_fits(&append(6, u64::MAX, 4, 1)));
    assert!(m.step_fits(&append(6, u64::MAX, 4, 0)));
    let c = node(candidate(u64::MAX), 2);
    assert!(!c.step_fits(&response_event(5, true)));
    assert!(c.step_fits(&response_event(5, false)));
    let l = node(Role::Leader, 2);
    assert!(l.step_fits(&Event::Timeout));
}
