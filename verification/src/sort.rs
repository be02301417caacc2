//! Sorting of query results.
//!
//! Reads return events ordered by caller-assigned sequence number and
//! sessions/branches ordered by creation time, whatever the storage order
//! was.  The sorts are selection sorts specified by sortedness plus
//! multiset equality with the input.

use vstd::prelude::*;
use crate::event::Event;
use crate::session::Session;
use crate::branch::TimelineBranch;
use crate::state::event_views;
use crate::records::{session_views, branch_views};

verus! {

/// Events in ascending order of sequence number.
pub open spec fn events_sorted_by_seq(s: Seq<Event>) -> bool {
    forall|i: int, j: int|
        0 <= i < j < s.len() ==> s[i].sequence_number <= s[j].sequence_number
}

/// Sessions in ascending order of creation time.
pub open spec fn sessions_sorted_by_created(s: Seq<Session>) -> bool {
    forall|i: int, j: int| 0 <= i < j < s.len() ==> s[i].created_at <= s[j].created_at
}

/// Branches in ascending order of creation time.
pub open spec fn branches_sorted_by_created(s: Seq<TimelineBranch>) -> bool {
    forall|i: int, j: int| 0 <= i < j < s.len() ==> s[i].created_at <= s[j].created_at
}

/// Sort events by sequence number, ascending.
pub fn sorted_events(v: Vec<Event>) -> (r: Vec<Event>)
    ensures
        r@.to_multiset() == v@.to_multiset(),
        event_views(r@).to_multiset() == event_views(v@).to_multiset(),
        events_sorted_by_seq(r@),
{
    broadcast use vstd::seq_lib::group_to_multiset_ensures;
    broadcast use vstd::multiset::group_multiset_axioms;

    let mut work = v;
    let mut out: Vec<Event> = Vec::new();
    while work.len() > 0
        invariant
            out@.to_multiset().add(work@.to_multiset()) == v@.to_multiset(),
            event_views(out@).to_multiset().add(event_views(work@).to_multiset())
                == event_views(v@).to_multiset(),
            events_sorted_by_seq(out@),
            forall|i: int, j: int|
                0 <= i < out@.len() && 0 <= j < work@.len() ==> out@[i].sequence_number
                    <= work@[j].sequence_number,
        decreases work.len(),
    {
        let mut best: usize = 0;
        let mut k: usize = 1;
        while k < work.len()
            invariant
                work@.len() > 0,
                best < work@.len(),
                1 <= k <= work@.len(),
                forall|j: int|
                    0 <= j < k ==> work@[best as int].sequence_number
                        <= work@[j].sequence_number,
            decreases work.len() - k,
        {
            if work[k].sequence_number < work[best].sequence_number {
                best = k;
            }
            k = k + 1;
        }
        let ghost pre_work = work@;
        let ghost pre_out = out@;
        let e = work.remove(best);
        out.push(e);
        proof {
            broadcast use vstd::seq_lib::group_to_multiset_ensures;
            broadcast use vstd::multiset::group_multiset_axioms;

            assert(pre_work.contains(e)) by {
                assert(pre_work[best as int] == e);
            }
            assert(pre_work.to_multiset().count(e) > 0);
            assert(out@.to_multiset().add(work@.to_multiset()) =~= pre_out.to_multiset().add(
                pre_work.to_multiset(),
            ));
            assert(event_views(work@) =~= event_views(pre_work).remove(best as int));
            assert(event_views(out@) =~= event_views(pre_out).push(e@));
            assert(event_views(pre_work)[best as int] == e@);
            assert(event_views(pre_work).contains(e@));
            assert(event_views(pre_work).to_multiset().count(e@) > 0);
            assert(event_views(out@).to_multiset().add(event_views(work@).to_multiset())
                =~= event_views(pre_out).to_multiset().add(event_views(pre_work).to_multiset()));
            assert(forall|j: int|
                0 <= j < work@.len() ==> pre_work.contains(#[trigger] work@[j])) by {
                assert(forall|j: int|
                    0 <= j < work@.len() ==> #[trigger] work@[j] == if j < best as int {
                        pre_work[j]
                    } else {
                        pre_work[j + 1]
                    });
            }
        }
    }
    out
}

/// Sort sessions by creation time, ascending.
pub fn sorted_sessions(v: Vec<Session>) -> (r: Vec<Session>)
    ensures
        r@.to_multiset() == v@.to_multiset(),
        session_views(r@).to_multiset() == session_views(v@).to_multiset(),
        sessions_sorted_by_created(r@),
{
    broadcast use vstd::seq_lib::group_to_multiset_ensures;
    broadcast use vstd::multiset::group_multiset_axioms;

    let mut work = v;
    let mut out: Vec<Session> = Vec::new();
    while work.len() > 0
        invariant
            out@.to_multiset().add(work@.to_multiset()) == v@.to_multiset(),
            session_views(out@).to_multiset().add(session_views(work@).to_multiset())
                == session_views(v@).to_multiset(),
            sessions_sorted_by_created(out@),
            forall|i: int, j: int|
                0 <= i < out@.len() && 0 <= j < work@.len() ==> out@[i].created_at
                    <= work@[j].created_at,
        decreases work.len(),
    {
        let mut best: usize = 0;
        let mut k: usize = 1;
        while k < work.len()
            invariant
                work@.len() > 0,
                best < work@.len(),
                1 <= k <= work@.len(),
                forall|j: int|
                    0 <= j < k ==> work@[best as int].created_at <= work@[j].created_at,
            decreases work.len() - k,
        {
            if work[k].created_at < work[best].created_at {
                best = k;
            }
            k = k + 1;
        }
        let ghost pre_work = work@;
        let ghost pre_out = out@;
        let e = work.remove(best);
        out.push(e);
        proof {
            broadcast use vstd::seq_lib::group_to_multiset_ensures;
            broadcast use vstd::multiset::group_multiset_axioms;

            assert(pre_work.contains(e)) by {
                assert(pre_work[best as int] == e);
            }
            assert(pre_work.to_multiset().count(e) > 0);
            assert(out@.to_multiset().add(work@.to_multiset()) =~= pre_out.to_multiset().add(
                pre_work.to_multiset(),
            ));
            assert(session_views(work@) =~= session_views(pre_work).remove(best as int));
            assert(session_views(out@) =~= session_views(pre_out).push(e@));
            assert(session_views(pre_work)[best as int] == e@);
            assert(session_views(pre_work).contains(e@));
            assert(session_views(pre_work).to_multiset().count(e@) > 0);
            assert(session_views(out@).to_multiset().add(session_views(work@).to_multiset())
                =~= session_views(pre_out).to_multiset().add(
                session_views(pre_work).to_multiset(),
            ));
            assert(forall|j: int|
                0 <= j < work@.len() ==> pre_work.contains(#[trigger] work@[j])) by {
                assert(forall|j: int|
                    0 <= j < work@.len() ==> #[trigger] work@[j] == if j < best as int {
                        pre_work[j]
                    } else {
                        pre_work[j + 1]
                    });
            }
        }
    }
    out
}

/// Sort branches by creation time, ascending.
pub fn sorted_branches(v: Vec<TimelineBranch>) -> (r: Vec<TimelineBranch>)
    ensures
        r@.to_multiset() == v@.to_multiset(),
        branch_views(r@).to_multiset() == branch_views(v@).to_multiset(),
        branches_sorted_by_created(r@),
{
    broadcast use vstd::seq_lib::group_to_multiset_ensures;
    broadcast use vstd::multiset::group_multiset_axioms;

    let mut work = v;
    let mut out: Vec<TimelineBranch> = Vec::new();
    while work.len() > 0
        invariant
            out@.to_multiset().add(work@.to_multiset()) == v@.to_multiset(),
            branch_views(out@).to_multiset().add(branch_views(work@).to_multiset())
                == branch_views(v@).to_multiset(),
            branches_sorted_by_created(out@),
            forall|i: int, j: int|
                0 <= i < out@.len() && 0 <= j < work@.len() ==> out@[i].created_at
                    <= work@[j].created_at,
        decreases work.len(),
    {
        let mut best: usize = 0;
        let mut k: usize = 1;
        while k < work.len()
            invariant
                work@.len() > 0,
                best < work@.len(),
                1 <= k <= work@.len(),
                forall|j: int|
                    0 <= j < k ==> work@[best as int].created_at <= work@[j].created_at,
            decreases work.len() - k,
        {
            if work[k].created_at < work[best].created_at {
                best = k;
            }
            k = k + 1;
        }
        let ghost pre_work = work@;
        let ghost pre_out = out@;
        let e = work.remove(best);
        out.push(e);
        proof {
            broadcast use vstd::seq_lib::group_to_multiset_ensures;
            broadcast use vstd::multiset::group_multiset_axioms;

            assert(pre_work.contains(e)) by {
                assert(pre_work[best as int] == e);
            }
            assert(pre_work.to_multiset().count(e) > 0);
            assert(out@.to_multiset().add(work@.to_multiset()) =~= pre_out.to_multiset().add(
                pre_work.to_multiset(),
            ));
            assert(branch_views(work@) =~= branch_views(pre_work).remove(best as int));
            assert(branch_views(out@) =~= branch_views(pre_out).push(e@));
            assert(branch_views(pre_work)[best as int] == e@);
            assert(branch_views(pre_work).contains(e@));
            assert(branch_views(pre_work).to_multiset().count(e@) > 0);
            assert(branch_views(out@).to_multiset().add(branch_views(work@).to_multiset())
                =~= branch_views(pre_out).to_multiset().add(
                branch_views(pre_work).to_multiset(),
            ));
            assert(forall|j: int|
                0 <= j < work@.len() ==> pre_work.contains(#[trigger] work@[j])) by {
                assert(forall|j: int|
                    0 <= j < work@.len() ==> #[trigger] work@[j] == if j < best as int {
                        pre_work[j]
                    } else {
                        pre_work[j + 1]
                    });
            }
        }
    }
    out
}

} // verus!
