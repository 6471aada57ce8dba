//! Properties that every step of a node keeps, proved over `next`, which
//! `Node::step` follows exactly.
use vstd::prelude::*;

use crate::message::data::MsgType;
use crate::message::{AppendRequest, Data, Response, VoteRequest};
use crate::node::RoleView;
use crate::step::{adopt_candidate, next, response_msg, step_fits, Event, RaftState, StepError};

verus! {

/// Whether `r` is a reply that grants its request in term `term`.
pub open spec fn is_grant(r: Result<Option<Data>, StepError>, term: u64) -> bool {
    r == Ok::<Option<Data>, StepError>(Some(response_msg(term, true)))
}

/// Whether the step from `s` on `ev` grants a vote to `candidate`, with a
/// reply in term `term`.
pub open spec fn grants_vote(
    s: RaftState,
    id: u64,
    n_peers: nat,
    ev: Event,
    candidate: u64,
    term: u64,
) -> bool {
    &&& ev matches Event::Message(d) && d.msg_type matches Some(MsgType::Vote(v))
        && v.candidate_id == candidate
    &&& is_grant(next(s, id, n_peers, ev).1, term)
}

/// A node's term never goes back.
pub proof fn lemma_term_never_decreases(s: RaftState, id: u64, n_peers: nat, ev: Event)
    ensures
        next(s, id, n_peers, ev).0.current_term >= s.current_term,
{
}

/// Within one term, a vote once cast is never changed.
pub proof fn lemma_vote_kept_within_term(s: RaftState, id: u64, n_peers: nat, ev: Event)
    requires
        s.voted_for is Some,
        next(s, id, n_peers, ev).0.current_term == s.current_term,
    ensures
        next(s, id, n_peers, ev).0.voted_for == s.voted_for,
{
}

/// The log index never goes back and grows by at most one entry per step;
/// the identity of the last entry changes only with the index.
pub proof fn lemma_log_grows_by_at_most_one(s: RaftState, id: u64, n_peers: nat, ev: Event)
    requires
        step_fits(s, ev),
    ensures
        s.log_index <= next(s, id, n_peers, ev).0.log_index <= s.log_index + 1,
        next(s, id, n_peers, ev).0.log_index == s.log_index ==> next(
            s,
            id,
            n_peers,
            ev,
        ).0.log_term == s.log_term,
{
}

/// A leader stays leader, keeps its state and sends nothing.
pub proof fn lemma_leader_is_stable(s: RaftState, id: u64, n_peers: nat, ev: Event)
    requires
        s.role is Leader,
    ensures
        next(s, id, n_peers, ev) == (s, Ok::<Option<Data>, StepError>(None)),
{
}

/// A node becomes leader only as a candidate that receives a granted
/// response, not from a later term, which brings its votes above half its
/// peer count, rounded down (with an odd number of peers, exactly half the
/// cluster).
pub proof fn lemma_leader_only_from_candidate(s: RaftState, id: u64, n_peers: nat, ev: Event)
    requires
        !(s.role is Leader),
        next(s, id, n_peers, ev).0.role is Leader,
    ensures
        s.role matches RoleView::Candidate { votes, .. } && votes + 1 > n_peers / 2,
        ev matches Event::Message(d) && d.msg_type matches Some(MsgType::Response(r)) && r.status
            && r.term <= s.current_term,
{
}

/// A failed step leaves the state as it was.
pub proof fn lemma_failure_changes_nothing(s: RaftState, id: u64, n_peers: nat, ev: Event)
    requires
        next(s, id, n_peers, ev).1 is Err,
    ensures
        next(s, id, n_peers, ev).0 == s,
{
}

/// Every reply a node sends carries the term it is in after the step.
pub proof fn lemma_replies_carry_current_term(
    s: RaftState,
    id: u64,
    n_peers: nat,
    ev: Event,
    resp: Response,
)
    requires
        next(s, id, n_peers, ev).1 == Ok::<Option<Data>, StepError>(
            Some(Data { msg_type: Some(MsgType::Response(resp)) }),
        ),
    ensures
        resp.term == next(s, id, n_peers, ev).0.current_term,
{
}

/// A granted vote is recorded: afterwards the node has voted for that
/// candidate, in a term no earlier than the one requested.
pub proof fn lemma_granted_vote_is_recorded(
    s: RaftState,
    id: u64,
    n_peers: nat,
    ev: Event,
    candidate: u64,
    term: u64,
)
    requires
        grants_vote(s, id, n_peers, ev, candidate, term),
    ensures
        next(s, id, n_peers, ev).0.voted_for == Some(candidate),
        term == next(s, id, n_peers, ev).0.current_term,
        ev matches Event::Message(d) && d.msg_type matches Some(MsgType::Vote(v)) && v.term
            <= term,
{
}

/// A node that has voted grants no vote to anyone else in the same term.
pub proof fn lemma_no_second_vote_in_term(
    s: RaftState,
    id: u64,
    n_peers: nat,
    ev: Event,
    candidate: u64,
)
    requires
        s.voted_for is Some,
        grants_vote(s, id, n_peers, ev, candidate, s.current_term),
    ensures
        s.voted_for == Some(candidate),
{
}

/// A vote request from a later term is granted by every node that is not a
/// leader: the node moves to that term and votes for the candidate.
pub proof fn lemma_later_term_vote_is_granted(s: RaftState, id: u64, n_peers: nat, ev: Event)
    requires
        !(s.role is Leader),
        ev matches Event::Message(d) && d.msg_type matches Some(MsgType::Vote(v)) && v.term
            > s.current_term,
    ensures
        ev matches Event::Message(d) && d.msg_type matches Some(MsgType::Vote(v)) && next(
            s,
            id,
            n_peers,
            ev,
        ) == adopt_candidate(s, v),
{
}

/// The states a node passes through on the events `evs`, starting from `s`:
/// `s` itself, then the state after each event.
pub open spec fn trace(s: RaftState, id: u64, n_peers: nat, evs: Seq<Event>) -> Seq<RaftState>
    decreases evs.len(),
{
    if evs.len() == 0 {
        seq![s]
    } else {
        let before = trace(s, id, n_peers, evs.drop_last());
        before.push(next(before.last(), id, n_peers, evs.last()).0)
    }
}

proof fn lemma_trace_shape(s: RaftState, id: u64, n_peers: nat, evs: Seq<Event>)
    ensures
        trace(s, id, n_peers, evs).len() == evs.len() + 1,
        trace(s, id, n_peers, evs)[0] == s,
        forall|k: int|
            0 <= k < evs.len() ==> #[trigger] trace(s, id, n_peers, evs)[k + 1] == next(
                trace(s, id, n_peers, evs)[k],
                id,
                n_peers,
                evs[k],
            ).0,
    decreases evs.len(),
{
    if evs.len() > 0 {
        let pre = evs.drop_last();
        lemma_trace_shape(s, id, n_peers, pre);
        assert forall|k: int| 0 <= k < evs.len() implies #[trigger] trace(s, id, n_peers, evs)[k
            + 1] == next(trace(s, id, n_peers, evs)[k], id, n_peers, evs[k]).0 by {
            if k < evs.len() - 1 {
                assert(evs[k] == pre[k]);
            }
        }
    }
}

/// After the node grants its vote to `first` with a reply in `term` at
/// event `i`, every later state is in `term` or a later one, and while it is
/// in `term` the vote stays with `first`.
proof fn lemma_vote_persists(
    s: RaftState,
    id: u64,
    n_peers: nat,
    evs: Seq<Event>,
    i: int,
    k: int,
    first: u64,
    term: u64,
)
    requires
        0 <= i < evs.len(),
        i + 1 <= k <= evs.len(),
        grants_vote(trace(s, id, n_peers, evs)[i], id, n_peers, evs[i], first, term),
    ensures
        trace(s, id, n_peers, evs)[k].current_term >= term,
        trace(s, id, n_peers, evs)[k].current_term == term ==> trace(
            s,
            id,
            n_peers,
            evs,
        )[k].voted_for == Some(first),
    decreases k,
{
    let t = trace(s, id, n_peers, evs);
    lemma_trace_shape(s, id, n_peers, evs);
    if k == i + 1 {
        assert(t[i + 1] == next(t[i], id, n_peers, evs[i]).0);
        lemma_granted_vote_is_recorded(t[i], id, n_peers, evs[i], first, term);
    } else {
        lemma_vote_persists(s, id, n_peers, evs, i, k - 1, first, term);
        assert(t[(k - 1) + 1] == next(t[k - 1], id, n_peers, evs[k - 1]).0);
        lemma_term_never_decreases(t[k - 1], id, n_peers, evs[k - 1]);
        if t[k].current_term == term {
            lemma_vote_kept_within_term(t[k - 1], id, n_peers, evs[k - 1]);
        }
    }
}

/// Over any run of events, a node grants its vote in a given term to one
/// candidate at most: two votes it grants with replies in the same term go
/// to the same candidate.
pub proof fn lemma_one_vote_per_term(
    s: RaftState,
    id: u64,
    n_peers: nat,
    evs: Seq<Event>,
    i: int,
    j: int,
    first: u64,
    second: u64,
    term: u64,
)
    requires
        0 <= i < j < evs.len(),
        grants_vote(trace(s, id, n_peers, evs)[i], id, n_peers, evs[i], first, term),
        grants_vote(trace(s, id, n_peers, evs)[j], id, n_peers, evs[j], second, term),
    ensures
        first == second,
{
    let t = trace(s, id, n_peers, evs);
    lemma_trace_shape(s, id, n_peers, evs);
    lemma_vote_persists(s, id, n_peers, evs, i, j, first, term);
    lemma_granted_vote_is_recorded(t[j], id, n_peers, evs[j], second, term);
    lemma_term_never_decreases(t[j], id, n_peers, evs[j]);
    lemma_no_second_vote_in_term(t[j], id, n_peers, evs[j], second);
}

/// The reply that answers a request in `term`, granting it or not.
pub open spec fn reply(term: u64, status: bool) -> Result<Option<Data>, StepError> {
    Ok(Some(Data { msg_type: Some(MsgType::Response(Response { term, status })) }))
}

/// When its election timer expires, a follower changes only its role: it
/// becomes a candidate holding one vote and an empty vote set, keeps its
/// term, its vote and its log, and asks its peers for their votes in the
/// term after its own, offering its log position.
pub proof fn lemma_follower_timeout(s: RaftState, id: u64, n_peers: nat)
    requires
        s.role is Follower,
        s.current_term < u64::MAX,
    ensures
        next(s, id, n_peers, Event::Timeout).0 == (RaftState {
            current_term: s.current_term,
            voted_for: s.voted_for,
            role: RoleView::Candidate { votes: 1, vote_set: Set::empty() },
            log_index: s.log_index,
            log_term: s.log_term,
        }),
        next(s, id, n_peers, Event::Timeout).1 == Ok::<Option<Data>, StepError>(
            Some(
                Data {
                    msg_type: Some(
                        MsgType::Vote(
                            VoteRequest {
                                term: (s.current_term + 1) as u64,
                                candidate_id: id,
                                last_log_idx: s.log_index,
                                last_log_term: s.log_term,
                            },
                        ),
                    ),
                },
            ),
        ),
{
}

/// When its election timer expires again, a candidate keeps its whole state
/// and asks again for votes in the term after its own.
pub proof fn lemma_candidate_timeout(s: RaftState, id: u64, n_peers: nat)
    requires
        s.role is Candidate,
        s.current_term < u64::MAX,
    ensures
        next(s, id, n_peers, Event::Timeout).0 == s,
        next(s, id, n_peers, Event::Timeout).1 == Ok::<Option<Data>, StepError>(
            Some(
                Data {
                    msg_type: Some(
                        MsgType::Vote(
                            VoteRequest {
                                term: (s.current_term + 1) as u64,
                                candidate_id: id,
                                last_log_idx: s.log_index,
                                last_log_term: s.log_term,
                            },
                        ),
                    ),
                },
            ),
        ),
{
}

/// A follower that accepts an append request (from a later term, right
/// after its last entry) answers with a grant in its own term. With entries,
/// its log grows by one entry, recorded with the request's term; without,
/// its log is unchanged. Its term, vote and role stay as they were.
pub proof fn lemma_follower_accepts_append(s: RaftState, id: u64, n_peers: nat, a: AppendRequest)
    requires
        s.role is Follower,
        a.term > s.current_term,
        a.prev_log_idx == s.log_index,
        a.prev_log_term == s.log_term,
        a.entries.len() > 0 ==> s.log_index < u64::MAX,
    ensures
        ({
            let (t, r) = next(
                s,
                id,
                n_peers,
                Event::Message(Data { msg_type: Some(MsgType::Append(a)) }),
            );
            &&& r == reply(s.current_term, true)
            &&& t.current_term == s.current_term
            &&& t.voted_for == s.voted_for
            &&& t.role == RoleView::Follower
            &&& a.entries.len() > 0 ==> t.log_index == s.log_index + 1 && t.log_term == a.term
            &&& a.entries.len() == 0 ==> t.log_index == s.log_index && t.log_term == s.log_term
        }),
{
}

/// A follower refuses an append request that is not from a later term or
/// does not continue right after its last entry, and changes nothing.
pub proof fn lemma_follower_refuses_append(s: RaftState, id: u64, n_peers: nat, a: AppendRequest)
    requires
        s.role is Follower,
        !(a.term > s.current_term && a.prev_log_idx == s.log_index && a.prev_log_term
            == s.log_term),
    ensures
        next(s, id, n_peers, Event::Message(Data { msg_type: Some(MsgType::Append(a)) })) == (
            s,
            reply(s.current_term, false),
        ),
{
}

/// A vote request from a later term, to a node that is not a leader, moves
/// it to that term, records the vote for the candidate, makes it a
/// follower, and is granted in the new term; its log is kept.
pub proof fn lemma_later_vote_adopted(s: RaftState, id: u64, n_peers: nat, v: VoteRequest)
    requires
        !(s.role is Leader),
        v.term > s.current_term,
    ensures
        next(s, id, n_peers, Event::Message(Data { msg_type: Some(MsgType::Vote(v)) })) == (
            RaftState {
                current_term: v.term,
                voted_for: Some(v.candidate_id),
                role: RoleView::Follower,
                log_index: s.log_index,
                log_term: s.log_term,
            },
            reply(v.term, true),
        ),
{
}

/// A follower does not answer a vote request from its own term or an
/// earlier one, and changes nothing.
pub proof fn lemma_follower_ignores_stale_vote(s: RaftState, id: u64, n_peers: nat, v: VoteRequest)
    requires
        s.role is Follower,
        v.term <= s.current_term,
    ensures
        next(s, id, n_peers, Event::Message(Data { msg_type: Some(MsgType::Vote(v)) })) == (
            s,
            Ok::<Option<Data>, StepError>(None),
        ),
{
}

/// A candidate that has not voted, asked for its vote in its own term or an
/// earlier one, votes for that candidate, becomes a follower and grants the
/// vote in its own term; its term and log are kept.
pub proof fn lemma_unvoted_candidate_grants(
    s: RaftState,
    id: u64,
    n_peers: nat,
    v: VoteRequest,
)
    requires
        s.role is Candidate,
        s.voted_for is None,
        v.term <= s.current_term,
    ensures
        next(s, id, n_peers, Event::Message(Data { msg_type: Some(MsgType::Vote(v)) })) == (
            RaftState {
                current_term: s.current_term,
                voted_for: Some(v.candidate_id),
                role: RoleView::Follower,
                log_index: s.log_index,
                log_term: s.log_term,
            },
            reply(s.current_term, true),
        ),
{
}

/// A candidate that has voted, asked for its vote in its own term or an
/// earlier one, keeps its state and grants the vote exactly when it is
/// asked by the one it voted for.
pub proof fn lemma_voted_candidate_answers(
    s: RaftState,
    id: u64,
    n_peers: nat,
    v: VoteRequest,
    c: u64,
)
    requires
        s.role is Candidate,
        s.voted_for == Some(c),
        v.term <= s.current_term,
    ensures
        next(s, id, n_peers, Event::Message(Data { msg_type: Some(MsgType::Vote(v)) })) == (
            s,
            reply(s.current_term, c == v.candidate_id),
        ),
{
}

/// A candidate that sees a response from a later term, granted or not,
/// moves to that term and becomes a follower, keeping its vote and log and
/// sending nothing.
pub proof fn lemma_candidate_steps_down_on_later_response(
    s: RaftState,
    id: u64,
    n_peers: nat,
    r: Response,
)
    requires
        s.role is Candidate,
        r.term > s.current_term,
    ensures
        next(s, id, n_peers, Event::Message(Data { msg_type: Some(MsgType::Response(r)) })) == (
            RaftState {
                current_term: r.term,
                voted_for: s.voted_for,
                role: RoleView::Follower,
                log_index: s.log_index,
                log_term: s.log_term,
            },
            Ok::<Option<Data>, StepError>(None),
        ),
{
}

/// A candidate holding `votes` that receives a granted response, not from a
/// later term, becomes leader when `votes + 1` exceeds half its peer count
/// rounded down, and otherwise stays a candidate holding `votes + 1` with
/// the same vote set. Its term, vote and log are kept, and it sends nothing.
pub proof fn lemma_candidate_counts_granted_vote(
    s: RaftState,
    id: u64,
    n_peers: nat,
    r: Response,
    votes: u64,
    vote_set: Set<u64>,
)
    requires
        s.role == (RoleView::Candidate { votes, vote_set }),
        r.term <= s.current_term,
        r.status,
        votes < u64::MAX,
    ensures
        ({
            let (t, out) = next(
                s,
                id,
                n_peers,
                Event::Message(Data { msg_type: Some(MsgType::Response(r)) }),
            );
            &&& out == Ok::<Option<Data>, StepError>(None)
            &&& t.current_term == s.current_term
            &&& t.voted_for == s.voted_for
            &&& t.log_index == s.log_index
            &&& t.log_term == s.log_term
            &&& votes + 1 > n_peers / 2 ==> t.role == RoleView::Leader
            &&& votes + 1 <= n_peers / 2 ==> t.role == (RoleView::Candidate {
                votes: (votes + 1) as u64,
                vote_set,
            })
        }),
{
}

/// A candidate ignores a refused response that is not from a later term.
pub proof fn lemma_candidate_ignores_refusal(s: RaftState, id: u64, n_peers: nat, r: Response)
    requires
        s.role is Candidate,
        r.term <= s.current_term,
        !r.status,
    ensures
        next(s, id, n_peers, Event::Message(Data { msg_type: Some(MsgType::Response(r)) })) == (
            s,
            Ok::<Option<Data>, StepError>(None),
        ),
{
}

/// A node that is not a leader reports a failed timer or message channel
/// as such and changes nothing.
pub proof fn lemma_channel_failures_reported(s: RaftState, id: u64, n_peers: nat)
    requires
        !(s.role is Leader),
    ensures
        next(s, id, n_peers, Event::TimerFailed) == (
            s,
            Err::<Option<Data>, StepError>(StepError::TimerFailed),
        ),
        next(s, id, n_peers, Event::MessageFailed) == (
            s,
            Err::<Option<Data>, StepError>(StepError::MessageFailed),
        ),
{
}

/// A follower ignores responses and empty messages; a candidate ignores
/// append requests and empty messages. Neither changes nor sends anything.
pub proof fn lemma_other_messages_ignored(
    s: RaftState,
    id: u64,
    n_peers: nat,
    r: Response,
    a: AppendRequest,
)
    ensures
        s.role is Follower ==> next(
            s,
            id,
            n_peers,
            Event::Message(Data { msg_type: Some(MsgType::Response(r)) }),
        ) == (s, Ok::<Option<Data>, StepError>(None)),
        !(s.role is Leader) ==> next(s, id, n_peers, Event::Message(Data { msg_type: None }))
            == (s, Ok::<Option<Data>, StepError>(None)),
        s.role is Candidate ==> next(
            s,
            id,
            n_peers,
            Event::Message(Data { msg_type: Some(MsgType::Append(a)) }),
        ) == (s, Ok::<Option<Data>, StepError>(None)),
{
}

} // verus!
