//! The in-memory state container: three keyed collections.
//!
//! Entities are stored in insertion order and keyed by their id: storing an
//! entity whose id is already present replaces it in place, so ids stay
//! unique.  The same upsert function is the meaning of one append-only log
//! record, which is what makes log replay over an already-current snapshot
//! harmless.

use vstd::prelude::*;
use vstd::pervasive::VecAdditionalExecFns;
use crate::event::Event;
use crate::session::Session;
use crate::branch::TimelineBranch;

verus! {

/// Insert-or-replace an event by id, keeping the position of a replaced
/// entry and appending a new one.
pub open spec fn upsert_event_seq(s: Seq<Event>, e: Event) -> Seq<Event>
    decreases s.len(),
{
    if s.len() == 0 {
        seq![e]
    } else if s[0].id@ == e.id@ {
        seq![e] + s.drop_first()
    } else {
        seq![s[0]] + upsert_event_seq(s.drop_first(), e)
    }
}

/// Insert-or-replace a session by id.
pub open spec fn upsert_session_seq(s: Seq<Session>, x: Session) -> Seq<Session>
    decreases s.len(),
{
    if s.len() == 0 {
        seq![x]
    } else if s[0].id@ == x.id@ {
        seq![x] + s.drop_first()
    } else {
        seq![s[0]] + upsert_session_seq(s.drop_first(), x)
    }
}

/// Insert-or-replace a branch by id.
pub open spec fn upsert_branch_seq(s: Seq<TimelineBranch>, x: TimelineBranch) -> Seq<
    TimelineBranch,
>
    decreases s.len(),
{
    if s.len() == 0 {
        seq![x]
    } else if s[0].id@ == x.id@ {
        seq![x] + s.drop_first()
    } else {
        seq![s[0]] + upsert_branch_seq(s.drop_first(), x)
    }
}

/// First session with the given id, if any.
pub open spec fn find_session_seq(s: Seq<Session>, id: Seq<char>) -> Option<Session>
    decreases s.len(),
{
    if s.len() == 0 {
        None
    } else if s[0].id@ == id {
        Some(s[0])
    } else {
        find_session_seq(s.drop_first(), id)
    }
}

/// First branch with the given id, if any.
pub open spec fn find_branch_seq(s: Seq<TimelineBranch>, id: Seq<char>) -> Option<
    TimelineBranch,
>
    decreases s.len(),
{
    if s.len() == 0 {
        None
    } else if s[0].id@ == id {
        Some(s[0])
    } else {
        find_branch_seq(s.drop_first(), id)
    }
}

/// The events owned by one session, in storage order.
pub open spec fn events_of_session(s: Seq<Event>, sid: Seq<char>) -> Seq<Event>
    decreases s.len(),
{
    if s.len() == 0 {
        Seq::empty()
    } else if s[0].session_id@ == sid {
        seq![s[0]] + events_of_session(s.drop_first(), sid)
    } else {
        events_of_session(s.drop_first(), sid)
    }
}

/// The events left when one session's events are removed.
pub open spec fn events_without_session(s: Seq<Event>, sid: Seq<char>) -> Seq<Event>
    decreases s.len(),
{
    if s.len() == 0 {
        Seq::empty()
    } else if s[0].session_id@ == sid {
        events_without_session(s.drop_first(), sid)
    } else {
        seq![s[0]] + events_without_session(s.drop_first(), sid)
    }
}

/// The sessions left when one id is removed.
pub open spec fn sessions_without(s: Seq<Session>, id: Seq<char>) -> Seq<Session>
    decreases s.len(),
{
    if s.len() == 0 {
        Seq::empty()
    } else if s[0].id@ == id {
        sessions_without(s.drop_first(), id)
    } else {
        seq![s[0]] + sessions_without(s.drop_first(), id)
    }
}

/// The branches left when one id is removed.
pub open spec fn branches_without(s: Seq<TimelineBranch>, id: Seq<char>) -> Seq<
    TimelineBranch,
>
    decreases s.len(),
{
    if s.len() == 0 {
        Seq::empty()
    } else if s[0].id@ == id {
        branches_without(s.drop_first(), id)
    } else {
        seq![s[0]] + branches_without(s.drop_first(), id)
    }
}

/// The element-wise views of a sequence of events.
pub open spec fn event_views(s: Seq<Event>) -> Seq<crate::event::EventV> {
    s.map_values(|e: Event| e@)
}

/// Ids are pairwise distinct.
pub open spec fn unique_event_ids(s: Seq<Event>) -> bool {
    forall|i: int, j: int| 0 <= i < j < s.len() ==> s[i].id@ != s[j].id@
}

/// Ids are pairwise distinct.
pub open spec fn unique_session_ids(s: Seq<Session>) -> bool {
    forall|i: int, j: int| 0 <= i < j < s.len() ==> s[i].id@ != s[j].id@
}

/// Ids are pairwise distinct.
pub open spec fn unique_branch_ids(s: Seq<TimelineBranch>) -> bool {
    forall|i: int, j: int| 0 <= i < j < s.len() ==> s[i].id@ != s[j].id@
}

/// The in-memory state: events, sessions and branches, each keyed by id.
pub struct StoreState {
    pub events: Vec<Event>,
    pub sessions: Vec<Session>,
    pub branches: Vec<TimelineBranch>,
}

impl StoreState {
    /// Ids are unique within each collection.
    pub open spec fn wf(self) -> bool {
        &&& unique_event_ids(self.events@)
        &&& unique_session_ids(self.sessions@)
        &&& unique_branch_ids(self.branches@)
    }

    /// An empty container.
    pub fn new() -> (r: StoreState)
        ensures
            r.events@ =~= Seq::<Event>::empty(),
            r.sessions@ =~= Seq::<Session>::empty(),
            r.branches@ =~= Seq::<TimelineBranch>::empty(),
            r.wf(),
    {
        StoreState { events: Vec::new(), sessions: Vec::new(), branches: Vec::new() }
    }

    /// Insert or replace an event by id.
    pub fn upsert_event(&mut self, e: Event)
        requires
            old(self).wf(),
        ensures
            final(self).events@ == upsert_event_seq(old(self).events@, e),
            final(self).sessions@ == old(self).sessions@,
            final(self).branches@ == old(self).branches@,
            final(self).wf(),
    {
        let n = self.events.len();
        let mut i: usize = 0;
        while i < n
            invariant
                i <= n,
                n == self.events@.len(),
                forall|j: int| 0 <= j < i ==> self.events@[j].id@ != e.id@,
                *self == *old(self),
                old(self).wf(),
            decreases n - i,
        {
            if self.events[i].id == e.id {
                let ghost pre = self.events@;
                self.events.set(i, e);
                proof {
                    lemma_upsert_event_found(pre, e, i as int);
                    lemma_upsert_event_wf(old(self).events@, e);
                }
                return ;
            }
            i = i + 1;
        }
        let ghost pre = self.events@;
        self.events.push(e);
        proof {
            lemma_upsert_event_absent(pre, e);
            lemma_upsert_event_wf(old(self).events@, e);
        }
    }

    /// Insert or replace a session by id.
    pub fn upsert_session(&mut self, x: Session)
        requires
            old(self).wf(),
        ensures
            final(self).sessions@ == upsert_session_seq(old(self).sessions@, x),
            final(self).events@ == old(self).events@,
            final(self).branches@ == old(self).branches@,
            final(self).wf(),
    {
        let n = self.sessions.len();
        let mut i: usize = 0;
        while i < n
            invariant
                i <= n,
                n == self.sessions@.len(),
                forall|j: int| 0 <= j < i ==> self.sessions@[j].id@ != x.id@,
                *self == *old(self),
                old(self).wf(),
            decreases n - i,
        {
            if self.sessions[i].id == x.id {
                let ghost pre = self.sessions@;
                self.sessions.set(i, x);
                proof {
                    lemma_upsert_session_found(pre, x, i as int);
                    lemma_upsert_session_wf(old(self).sessions@, x);
                }
                return ;
            }
            i = i + 1;
        }
        let ghost pre = self.sessions@;
        self.sessions.push(x);
        proof {
            lemma_upsert_session_absent(pre, x);
            lemma_upsert_session_wf(old(self).sessions@, x);
        }
    }

    /// Insert or replace a branch by id.
    pub fn upsert_branch(&mut self, x: TimelineBranch)
        requires
            old(self).wf(),
        ensures
            final(self).branches@ == upsert_branch_seq(old(self).branches@, x),
            final(self).events@ == old(self).events@,
            final(self).sessions@ == old(self).sessions@,
            final(self).wf(),
    {
        let n = self.branches.len();
        let mut i: usize = 0;
        while i < n
            invariant
                i <= n,
                n == self.branches@.len(),
                forall|j: int| 0 <= j < i ==> self.branches@[j].id@ != x.id@,
                *self == *old(self),
                old(self).wf(),
            decreases n - i,
        {
            if self.branches[i].id == x.id {
                let ghost pre = self.branches@;
                self.branches.set(i, x);
                proof {
                    lemma_upsert_branch_found(pre, x, i as int);
                    lemma_upsert_branch_wf(old(self).branches@, x);
                }
                return ;
            }
            i = i + 1;
        }
        let ghost pre = self.branches@;
        self.branches.push(x);
        proof {
            lemma_upsert_branch_absent(pre, x);
            lemma_upsert_branch_wf(old(self).branches@, x);
        }
    }

    /// Look a session up by id; the result is a copy.
    pub fn get_session(&self, id: &String) -> (r: Option<Session>)
        ensures
            match (r, find_session_seq(self.sessions@, id@)) {
                (Some(a), Some(b)) => a@ == b@,
                (None, None) => true,
                _ => false,
            },
    {
        let n = self.sessions.len();
        let mut i: usize = 0;
        while i < n
            invariant
                i <= n,
                n == self.sessions@.len(),
                forall|j: int| 0 <= j < i ==> self.sessions@[j].id@ != id@,
            decreases n - i,
        {
            if self.sessions[i].id == *id {
                proof {
                    lemma_find_session_found(self.sessions@, id@, i as int);
                }
                return Some(self.sessions[i].clone());
            }
            i = i + 1;
        }
        proof {
            lemma_find_session_absent(self.sessions@, id@);
        }
        None
    }

    /// Look a branch up by id; the result is a copy.
    pub fn get_branch(&self, id: &String) -> (r: Option<TimelineBranch>)
        ensures
            match (r, find_branch_seq(self.branches@, id@)) {
                (Some(a), Some(b)) => a@ == b@,
                (None, None) => true,
                _ => false,
            },
    {
        let n = self.branches.len();
        let mut i: usize = 0;
        while i < n
            invariant
                i <= n,
                n == self.branches@.len(),
                forall|j: int| 0 <= j < i ==> self.branches@[j].id@ != id@,
            decreases n - i,
        {
            if self.branches[i].id == *id {
                proof {
                    lemma_find_branch_found(self.branches@, id@, i as int);
                }
                return Some(self.branches[i].clone());
            }
            i = i + 1;
        }
        proof {
            lemma_find_branch_absent(self.branches@, id@);
        }
        None
    }

    /// Copies of the events owned by one session, in storage order.
    pub fn events_for_session(&self, sid: &String) -> (r: Vec<Event>)
        ensures
            event_views(r@) == event_views(events_of_session(self.events@, sid@)),
    {
        let n = self.events.len();
        let mut out: Vec<Event> = Vec::new();
        let mut i: usize = 0;
        while i < n
            invariant
                i <= n,
                n == self.events@.len(),
                out@.len() == events_of_session(self.events@.take(i as int), sid@).len(),
                forall|k: int|
                    0 <= k < out@.len() ==> #[trigger] out@[k]@ == events_of_session(
                        self.events@.take(i as int),
                        sid@,
                    )[k]@,
            decreases n - i,
        {
            let ghost pre = out@;
            if self.events[i].session_id == *sid {
                out.push(self.events[i].clone());
            }
            proof {
                let evv = self.events@[i as int];
                let xs = events_of_session(self.events@.take(i as int), sid@);
                assert(self.events@.take(i + 1) =~= self.events@.take(i as int).push(evv));
                lemma_events_of_session_push(self.events@.take(i as int), evv, sid@);
                let ys = events_of_session(self.events@.take(i + 1), sid@);
                assert forall|k: int| 0 <= k < out@.len() implies #[trigger] out@[k]@
                    == ys[k]@ by {
                    if k < pre.len() {
                        assert(out@[k] == pre[k]);
                        assert(pre[k]@ == xs[k]@);
                        assert(ys[k] == xs[k]);
                    } else {
                        assert(out@[k]@ == evv@);
                        assert(ys[k] == evv);
                    }
                }
            }
            i = i + 1;
        }
        proof {
            assert(self.events@.take(n as int) =~= self.events@);
            let xs = events_of_session(self.events@, sid@);
            assert forall|k: int| 0 <= k < out@.len() implies #[trigger] event_views(out@)[k]
                == event_views(xs)[k] by {
                assert(out@[k]@ == xs[k]@);
            }
            assert(event_views(out@) =~= event_views(xs));
        }
        out
    }

    /// Remove a session and every event keyed to it.
    pub fn remove_session(&mut self, sid: &String)
        requires
            old(self).wf(),
        ensures
            final(self).sessions@ == sessions_without(old(self).sessions@, sid@),
            final(self).events@ == events_without_session(old(self).events@, sid@),
            final(self).branches@ == old(self).branches@,
            final(self).wf(),
    {
        let ghost orig = self.sessions@;
        let mut kept_sessions: Vec<Session> = Vec::new();
        while self.sessions.len() > 0
            invariant
                self.sessions@.len() <= orig.len(),
                self.sessions@ =~= orig.skip(orig.len() - self.sessions@.len()),
                kept_sessions@ == sessions_without(orig.take(orig.len() - self.sessions@.len()), sid@),
                self.events@ == old(self).events@,
                self.branches@ == old(self).branches@,
            decreases self.sessions.len(),
        {
            let ghost done = orig.len() - self.sessions@.len();
            let x = self.sessions.remove(0);
            if !(x.id == *sid) {
                kept_sessions.push(x);
            }
            proof {
                assert(x == orig[done]);
                assert(orig.take(done + 1) =~= orig.take(done).push(orig[done]));
                lemma_sessions_without_push(orig.take(done), orig[done], sid@);
                assert(self.sessions@ =~= orig.skip(orig.len() - self.sessions@.len()));
            }
        }
        proof {
            assert(orig.take(orig.len() as int) =~= orig);
        }
        self.sessions = kept_sessions;
        let ghost orig_ev = self.events@;
        let mut kept_events: Vec<Event> = Vec::new();
        while self.events.len() > 0
            invariant
                self.events@.len() <= orig_ev.len(),
                self.events@ =~= orig_ev.skip(orig_ev.len() - self.events@.len()),
                kept_events@ == events_without_session(
                    orig_ev.take(orig_ev.len() - self.events@.len()),
                    sid@,
                ),
                self.sessions@ == sessions_without(old(self).sessions@, sid@),
                self.branches@ == old(self).branches@,
            decreases self.events.len(),
        {
            let ghost done = orig_ev.len() - self.events@.len();
            let x = self.events.remove(0);
            if !(x.session_id == *sid) {
                kept_events.push(x);
            }
            proof {
                assert(x == orig_ev[done]);
                assert(orig_ev.take(done + 1) =~= orig_ev.take(done).push(orig_ev[done]));
                lemma_events_without_session_push(orig_ev.take(done), orig_ev[done], sid@);
                assert(self.events@ =~= orig_ev.skip(orig_ev.len() - self.events@.len()));
            }
        }
        proof {
            assert(orig_ev.take(orig_ev.len() as int) =~= orig_ev);
            lemma_sessions_without_unique(orig, sid@);
            lemma_events_without_session_unique(orig_ev, sid@);
        }
        self.events = kept_events;
    }

    /// Remove a branch and every event keyed to the branch's id.
    pub fn remove_branch(&mut self, bid: &String)
        requires
            old(self).wf(),
        ensures
            final(self).branches@ == branches_without(old(self).branches@, bid@),
            final(self).events@ == events_without_session(old(self).events@, bid@),
            final(self).sessions@ == old(self).sessions@,
            final(self).wf(),
    {
        let ghost orig = self.branches@;
        let mut kept_branches: Vec<TimelineBranch> = Vec::new();
        while self.branches.len() > 0
            invariant
                self.branches@.len() <= orig.len(),
                self.branches@ =~= orig.skip(orig.len() - self.branches@.len()),
                kept_branches@ == branches_without(orig.take(orig.len() - self.branches@.len()), bid@),
                self.events@ == old(self).events@,
                self.sessions@ == old(self).sessions@,
            decreases self.branches.len(),
        {
            let ghost done = orig.len() - self.branches@.len();
            let x = self.branches.remove(0);
            if !(x.id == *bid) {
                kept_branches.push(x);
            }
            proof {
                assert(x == orig[done]);
                assert(orig.take(done + 1) =~= orig.take(done).push(orig[done]));
                lemma_branches_without_push(orig.take(done), orig[done], bid@);
                assert(self.branches@ =~= orig.skip(orig.len() - self.branches@.len()));
            }
        }
        proof {
            assert(orig.take(orig.len() as int) =~= orig);
        }
        self.branches = kept_branches;
        let ghost orig_ev = self.events@;
        let mut kept_events: Vec<Event> = Vec::new();
        while self.events.len() > 0
            invariant
                self.events@.len() <= orig_ev.len(),
                self.events@ =~= orig_ev.skip(orig_ev.len() - self.events@.len()),
                kept_events@ == events_without_session(
                    orig_ev.take(orig_ev.len() - self.events@.len()),
                    bid@,
                ),
                self.branches@ == branches_without(old(self).branches@, bid@),
                self.sessions@ == old(self).sessions@,
            decreases self.events.len(),
        {
            let ghost done = orig_ev.len() - self.events@.len();
            let x = self.events.remove(0);
            if !(x.session_id == *bid) {
                kept_events.push(x);
            }
            proof {
                assert(x == orig_ev[done]);
                assert(orig_ev.take(done + 1) =~= orig_ev.take(done).push(orig_ev[done]));
                lemma_events_without_session_push(orig_ev.take(done), orig_ev[done], bid@);
                assert(self.events@ =~= orig_ev.skip(orig_ev.len() - self.events@.len()));
            }
        }
        proof {
            assert(orig_ev.take(orig_ev.len() as int) =~= orig_ev);
            lemma_branches_without_unique(orig, bid@);
            lemma_events_without_session_unique(orig_ev, bid@);
        }
        self.events = kept_events;
    }

    /// Remove every event keyed to one session, leaving the session record.
    pub fn clear_session_events(&mut self, sid: &String)
        requires
            old(self).wf(),
        ensures
            final(self).events@ == events_without_session(old(self).events@, sid@),
            final(self).sessions@ == old(self).sessions@,
            final(self).branches@ == old(self).branches@,
            final(self).wf(),
    {
        let ghost orig_ev = self.events@;
        let mut kept_events: Vec<Event> = Vec::new();
        while self.events.len() > 0
            invariant
                self.events@.len() <= orig_ev.len(),
                self.events@ =~= orig_ev.skip(orig_ev.len() - self.events@.len()),
                kept_events@ == events_without_session(
                    orig_ev.take(orig_ev.len() - self.events@.len()),
                    sid@,
                ),
                self.sessions@ == old(self).sessions@,
                self.branches@ == old(self).branches@,
            decreases self.events.len(),
        {
            let ghost done = orig_ev.len() - self.events@.len();
            let x = self.events.remove(0);
            if !(x.session_id == *sid) {
                kept_events.push(x);
            }
            proof {
                assert(x == orig_ev[done]);
                assert(orig_ev.take(done + 1) =~= orig_ev.take(done).push(orig_ev[done]));
                lemma_events_without_session_push(orig_ev.take(done), orig_ev[done], sid@);
                assert(self.events@ =~= orig_ev.skip(orig_ev.len() - self.events@.len()));
            }
        }
        proof {
            assert(orig_ev.take(orig_ev.len() as int) =~= orig_ev);
            lemma_events_without_session_unique(orig_ev, sid@);
        }
        self.events = kept_events;
    }
}

/// If the first match for the id is at `i`, the upsert is `update(i, e)`.
proof fn lemma_upsert_event_found(s: Seq<Event>, e: Event, i: int)
    requires
        0 <= i < s.len(),
        s[i].id@ == e.id@,
        forall|j: int| 0 <= j < i ==> s[j].id@ != e.id@,
    ensures
        upsert_event_seq(s, e) == s.update(i, e),
    decreases s.len(),
{
    if i == 0 {
        assert(upsert_event_seq(s, e) =~= s.update(0, e));
    } else {
        lemma_upsert_event_found(s.drop_first(), e, i - 1);
        assert(upsert_event_seq(s, e) =~= s.update(i, e));
    }
}

/// With no match for the id, the upsert appends.
pub proof fn lemma_upsert_event_absent(s: Seq<Event>, e: Event)
    requires
        forall|j: int| 0 <= j < s.len() ==> s[j].id@ != e.id@,
    ensures
        upsert_event_seq(s, e) == s.push(e),
    decreases s.len(),
{
    if s.len() == 0 {
        assert(upsert_event_seq(s, e) =~= s.push(e));
    } else {
        lemma_upsert_event_absent(s.drop_first(), e);
        assert(upsert_event_seq(s, e) =~= s.push(e));
    }
}

/// Upserting preserves id uniqueness.
proof fn lemma_upsert_event_wf(s: Seq<Event>, e: Event)
    requires
        unique_event_ids(s),
    ensures
        unique_event_ids(upsert_event_seq(s, e)),
        upsert_event_seq(s, e).len() >= s.len(),
        upsert_event_seq(s, e).len() <= s.len() + 1,
        forall|i: int|
            0 <= i < upsert_event_seq(s, e).len() ==> (upsert_event_seq(s, e)[i] == e
                || s.contains(upsert_event_seq(s, e)[i])),
    decreases s.len(),
{
    if s.len() == 0 {
    } else if s[0].id@ == e.id@ {
        assert(forall|i: int|
            0 <= i < s.drop_first().len() ==> s.drop_first()[i] == s[i + 1]);
    } else {
        lemma_upsert_event_wf(s.drop_first(), e);
        let r = upsert_event_seq(s, e);
        let rt = upsert_event_seq(s.drop_first(), e);
        assert(forall|i: int| 0 <= i < s.drop_first().len() ==> s.drop_first()[i] == s[i + 1]);
        assert(forall|i: int| 1 <= i < r.len() ==> r[i] == rt[i - 1]);
        assert forall|i: int, j: int| 0 <= i < j < r.len() implies r[i].id@ != r[j].id@ by {
            if i == 0 {
                assert(r[j] == rt[j - 1]);
                assert(rt[j - 1] == e || s.drop_first().contains(rt[j - 1]));
            }
        }
    }
}

proof fn lemma_upsert_session_found(s: Seq<Session>, x: Session, i: int)
    requires
        0 <= i < s.len(),
        s[i].id@ == x.id@,
        forall|j: int| 0 <= j < i ==> s[j].id@ != x.id@,
    ensures
        upsert_session_seq(s, x) == s.update(i, x),
    decreases s.len(),
{
    if i == 0 {
        assert(upsert_session_seq(s, x) =~= s.update(0, x));
    } else {
        lemma_upsert_session_found(s.drop_first(), x, i - 1);
        assert(upsert_session_seq(s, x) =~= s.update(i, x));
    }
}

pub proof fn lemma_upsert_session_absent(s: Seq<Session>, x: Session)
    requires
        forall|j: int| 0 <= j < s.len() ==> s[j].id@ != x.id@,
    ensures
        upsert_session_seq(s, x) == s.push(x),
    decreases s.len(),
{
    if s.len() == 0 {
        assert(upsert_session_seq(s, x) =~= s.push(x));
    } else {
        lemma_upsert_session_absent(s.drop_first(), x);
        assert(upsert_session_seq(s, x) =~= s.push(x));
    }
}

proof fn lemma_upsert_session_wf(s: Seq<Session>, x: Session)
    requires
        unique_session_ids(s),
    ensures
        unique_session_ids(upsert_session_seq(s, x)),
        upsert_session_seq(s, x).len() >= s.len(),
        upsert_session_seq(s, x).len() <= s.len() + 1,
        forall|i: int|
            0 <= i < upsert_session_seq(s, x).len() ==> (upsert_session_seq(s, x)[i] == x
                || s.contains(upsert_session_seq(s, x)[i])),
    decreases s.len(),
{
    if s.len() == 0 {
    } else if s[0].id@ == x.id@ {
        assert(forall|i: int|
            0 <= i < s.drop_first().len() ==> s.drop_first()[i] == s[i + 1]);
    } else {
        lemma_upsert_session_wf(s.drop_first(), x);
        let r = upsert_session_seq(s, x);
        let rt = upsert_session_seq(s.drop_first(), x);
        assert(forall|i: int| 0 <= i < s.drop_first().len() ==> s.drop_first()[i] == s[i + 1]);
        assert(forall|i: int| 1 <= i < r.len() ==> r[i] == rt[i - 1]);
        assert forall|i: int, j: int| 0 <= i < j < r.len() implies r[i].id@ != r[j].id@ by {
            if i == 0 {
                assert(r[j] == rt[j - 1]);
                assert(rt[j - 1] == x || s.drop_first().contains(rt[j - 1]));
            }
        }
    }
}

proof fn lemma_upsert_branch_found(s: Seq<TimelineBranch>, x: TimelineBranch, i: int)
    requires
        0 <= i < s.len(),
        s[i].id@ == x.id@,
        forall|j: int| 0 <= j < i ==> s[j].id@ != x.id@,
    ensures
        upsert_branch_seq(s, x) == s.update(i, x),
    decreases s.len(),
{
    if i == 0 {
        assert(upsert_branch_seq(s, x) =~= s.update(0, x));
    } else {
        lemma_upsert_branch_found(s.drop_first(), x, i - 1);
        assert(upsert_branch_seq(s, x) =~= s.update(i, x));
    }
}

pub proof fn lemma_upsert_branch_absent(s: Seq<TimelineBranch>, x: TimelineBranch)
    requires
        forall|j: int| 0 <= j < s.len() ==> s[j].id@ != x.id@,
    ensures
        upsert_branch_seq(s, x) == s.push(x),
    decreases s.len(),
{
    if s.len() == 0 {
        assert(upsert_branch_seq(s, x) =~= s.push(x));
    } else {
        lemma_upsert_branch_absent(s.drop_first(), x);
        assert(upsert_branch_seq(s, x) =~= s.push(x));
    }
}

proof fn lemma_upsert_branch_wf(s: Seq<TimelineBranch>, x: TimelineBranch)
    requires
        unique_branch_ids(s),
    ensures
        unique_branch_ids(upsert_branch_seq(s, x)),
        upsert_branch_seq(s, x).len() >= s.len(),
        upsert_branch_seq(s, x).len() <= s.len() + 1,
        forall|i: int|
            0 <= i < upsert_branch_seq(s, x).len() ==> (upsert_branch_seq(s, x)[i] == x
                || s.contains(upsert_branch_seq(s, x)[i])),
    decreases s.len(),
{
    if s.len() == 0 {
    } else if s[0].id@ == x.id@ {
        assert(forall|i: int|
            0 <= i < s.drop_first().len() ==> s.drop_first()[i] == s[i + 1]);
    } else {
        lemma_upsert_branch_wf(s.drop_first(), x);
        let r = upsert_branch_seq(s, x);
        let rt = upsert_branch_seq(s.drop_first(), x);
        assert(forall|i: int| 0 <= i < s.drop_first().len() ==> s.drop_first()[i] == s[i + 1]);
        assert(forall|i: int| 1 <= i < r.len() ==> r[i] == rt[i - 1]);
        assert forall|i: int, j: int| 0 <= i < j < r.len() implies r[i].id@ != r[j].id@ by {
            if i == 0 {
                assert(r[j] == rt[j - 1]);
                assert(rt[j - 1] == x || s.drop_first().contains(rt[j - 1]));
            }
        }
    }
}

proof fn lemma_find_session_found(s: Seq<Session>, id: Seq<char>, i: int)
    requires
        0 <= i < s.len(),
        s[i].id@ == id,
        forall|j: int| 0 <= j < i ==> s[j].id@ != id,
    ensures
        find_session_seq(s, id) == Some(s[i]),
    decreases s.len(),
{
    if i > 0 {
        lemma_find_session_found(s.drop_first(), id, i - 1);
    }
}

proof fn lemma_find_session_absent(s: Seq<Session>, id: Seq<char>)
    requires
        forall|j: int| 0 <= j < s.len() ==> s[j].id@ != id,
    ensures
        find_session_seq(s, id) is None,
    decreases s.len(),
{
    if s.len() > 0 {
        lemma_find_session_absent(s.drop_first(), id);
    }
}

proof fn lemma_find_branch_found(s: Seq<TimelineBranch>, id: Seq<char>, i: int)
    requires
        0 <= i < s.len(),
        s[i].id@ == id,
        forall|j: int| 0 <= j < i ==> s[j].id@ != id,
    ensures
        find_branch_seq(s, id) == Some(s[i]),
    decreases s.len(),
{
    if i > 0 {
        lemma_find_branch_found(s.drop_first(), id, i - 1);
    }
}

proof fn lemma_find_branch_absent(s: Seq<TimelineBranch>, id: Seq<char>)
    requires
        forall|j: int| 0 <= j < s.len() ==> s[j].id@ != id,
    ensures
        find_branch_seq(s, id) is None,
    decreases s.len(),
{
    if s.len() > 0 {
        lemma_find_branch_absent(s.drop_first(), id);
    }
}

/// Push distributes over the per-session projection.
pub proof fn lemma_events_of_session_push(s: Seq<Event>, e: Event, sid: Seq<char>)
    ensures
        events_of_session(s.push(e), sid) == if e.session_id@ == sid {
            events_of_session(s, sid).push(e)
        } else {
            events_of_session(s, sid)
        },
    decreases s.len(),
{
    reveal_with_fuel(events_of_session, 3);
    reveal_with_fuel(events_of_session, 3);
    if s.len() == 0 {
        assert(s.push(e).drop_first() =~= Seq::<Event>::empty());
        if e.session_id@ == sid {
            assert(events_of_session(s.push(e), sid) =~= events_of_session(s, sid).push(e));
        }
    } else {
        assert(s.push(e).drop_first() =~= s.drop_first().push(e));
        lemma_events_of_session_push(s.drop_first(), e, sid);
        if e.session_id@ == sid {
            assert(events_of_session(s.push(e), sid) =~= events_of_session(s, sid).push(e));
        } else {
            assert(events_of_session(s.push(e), sid) =~= events_of_session(s, sid));
        }
    }
}

/// Push distributes over the per-session removal.
pub proof fn lemma_events_without_session_push(s: Seq<Event>, e: Event, sid: Seq<char>)
    ensures
        events_without_session(s.push(e), sid) == if e.session_id@ == sid {
            events_without_session(s, sid)
        } else {
            events_without_session(s, sid).push(e)
        },
    decreases s.len(),
{
    reveal_with_fuel(events_without_session, 3);
    reveal_with_fuel(events_without_session, 3);
    if s.len() == 0 {
        assert(s.push(e).drop_first() =~= Seq::<Event>::empty());
        if e.session_id@ != sid {
            assert(events_without_session(s.push(e), sid) =~= events_without_session(
                s,
                sid,
            ).push(e));
        }
    } else {
        assert(s.push(e).drop_first() =~= s.drop_first().push(e));
        lemma_events_without_session_push(s.drop_first(), e, sid);
        if e.session_id@ == sid {
            assert(events_without_session(s.push(e), sid) =~= events_without_session(s, sid));
        } else {
            assert(events_without_session(s.push(e), sid) =~= events_without_session(
                s,
                sid,
            ).push(e));
        }
    }
}

/// Push distributes over the id removal.
pub proof fn lemma_sessions_without_push(s: Seq<Session>, x: Session, id: Seq<char>)
    ensures
        sessions_without(s.push(x), id) == if x.id@ == id {
            sessions_without(s, id)
        } else {
            sessions_without(s, id).push(x)
        },
    decreases s.len(),
{
    reveal_with_fuel(sessions_without, 3);
    if s.len() == 0 {
        assert(s.push(x).drop_first() =~= Seq::<Session>::empty());
        if x.id@ != id {
            assert(sessions_without(s.push(x), id) =~= sessions_without(s, id).push(x));
        }
    } else {
        assert(s.push(x).drop_first() =~= s.drop_first().push(x));
        lemma_sessions_without_push(s.drop_first(), x, id);
        if x.id@ == id {
            assert(sessions_without(s.push(x), id) =~= sessions_without(s, id));
        } else {
            assert(sessions_without(s.push(x), id) =~= sessions_without(s, id).push(x));
        }
    }
}

/// Push distributes over the id removal.
pub proof fn lemma_branches_without_push(s: Seq<TimelineBranch>, x: TimelineBranch, id: Seq<char>)
    ensures
        branches_without(s.push(x), id) == if x.id@ == id {
            branches_without(s, id)
        } else {
            branches_without(s, id).push(x)
        },
    decreases s.len(),
{
    reveal_with_fuel(branches_without, 3);
    if s.len() == 0 {
        assert(s.push(x).drop_first() =~= Seq::<TimelineBranch>::empty());
        if x.id@ != id {
            assert(branches_without(s.push(x), id) =~= branches_without(s, id).push(x));
        }
    } else {
        assert(s.push(x).drop_first() =~= s.drop_first().push(x));
        lemma_branches_without_push(s.drop_first(), x, id);
        if x.id@ == id {
            assert(branches_without(s.push(x), id) =~= branches_without(s, id));
        } else {
            assert(branches_without(s.push(x), id) =~= branches_without(s, id).push(x));
        }
    }
}

/// Every survivor of the removal is an element of the original.
pub proof fn lemma_sessions_without_contains(s: Seq<Session>, id: Seq<char>)
    ensures
        forall|k: int|
            0 <= k < sessions_without(s, id).len() ==> s.contains(
                #[trigger] sessions_without(s, id)[k],
            ),
    decreases s.len(),
{
    if s.len() > 0 {
        lemma_sessions_without_contains(s.drop_first(), id);
        assert forall|k: int| 0 <= k < sessions_without(s, id).len() implies s.contains(
            #[trigger] sessions_without(s, id)[k],
        ) by {
            let r = sessions_without(s, id);
            let rt = sessions_without(s.drop_first(), id);
            if s[0].id@ == id {
                assert(r[k] == rt[k]);
                let a = choose|a: int| 0 <= a < s.drop_first().len() && s.drop_first()[a] == rt[k];
                assert(s[a + 1] == rt[k]);
            } else {
                if k > 0 {
                    assert(r[k] == rt[k - 1]);
                    let a = choose|a: int|
                        0 <= a < s.drop_first().len() && s.drop_first()[a] == rt[k - 1];
                    assert(s[a + 1] == rt[k - 1]);
                } else {
                    assert(r[0] == s[0]);
                }
            }
        }
    }
}

/// Removal keeps id uniqueness.
pub proof fn lemma_sessions_without_unique(s: Seq<Session>, id: Seq<char>)
    requires
        unique_session_ids(s),
    ensures
        unique_session_ids(sessions_without(s, id)),
    decreases s.len(),
{
    if s.len() > 0 {
        assert(forall|i: int, j: int|
            0 <= i < j < s.drop_first().len() ==> s.drop_first()[i].id@
                != s.drop_first()[j].id@) by {
            assert(forall|i: int|
                0 <= i < s.drop_first().len() ==> s.drop_first()[i] == s[i + 1]);
        }
        lemma_sessions_without_unique(s.drop_first(), id);
        if s[0].id@ != id {
            let r = sessions_without(s, id);
            let rt = sessions_without(s.drop_first(), id);
            lemma_sessions_without_contains(s.drop_first(), id);
            assert forall|i: int, j: int| 0 <= i < j < r.len() implies r[i].id@ != r[j].id@ by {
                if i == 0 {
                    assert(r[j] == rt[j - 1]);
                    assert(s.drop_first().contains(rt[j - 1]));
                    let a = choose|a: int|
                        0 <= a < s.drop_first().len() && s.drop_first()[a] == rt[j - 1];
                    assert(s[a + 1] == rt[j - 1]);
                    assert(s[0].id@ != s[a + 1].id@);
                } else {
                    assert(r[i] == rt[i - 1] && r[j] == rt[j - 1]);
                }
            }
        }
    }
}

/// Every survivor of the removal is an element of the original.
pub proof fn lemma_branches_without_contains(s: Seq<TimelineBranch>, id: Seq<char>)
    ensures
        forall|k: int|
            0 <= k < branches_without(s, id).len() ==> s.contains(
                #[trigger] branches_without(s, id)[k],
            ),
    decreases s.len(),
{
    if s.len() > 0 {
        lemma_branches_without_contains(s.drop_first(), id);
        assert forall|k: int| 0 <= k < branches_without(s, id).len() implies s.contains(
            #[trigger] branches_without(s, id)[k],
        ) by {
            let r = branches_without(s, id);
            let rt = branches_without(s.drop_first(), id);
            if s[0].id@ == id {
                assert(r[k] == rt[k]);
                let a = choose|a: int| 0 <= a < s.drop_first().len() && s.drop_first()[a] == rt[k];
                assert(s[a + 1] == rt[k]);
            } else {
                if k > 0 {
                    assert(r[k] == rt[k - 1]);
                    let a = choose|a: int|
                        0 <= a < s.drop_first().len() && s.drop_first()[a] == rt[k - 1];
                    assert(s[a + 1] == rt[k - 1]);
                } else {
                    assert(r[0] == s[0]);
                }
            }
        }
    }
}

/// Removal keeps id uniqueness.
pub proof fn lemma_branches_without_unique(s: Seq<TimelineBranch>, id: Seq<char>)
    requires
        unique_branch_ids(s),
    ensures
        unique_branch_ids(branches_without(s, id)),
    decreases s.len(),
{
    if s.len() > 0 {
        assert(forall|i: int, j: int|
            0 <= i < j < s.drop_first().len() ==> s.drop_first()[i].id@
                != s.drop_first()[j].id@) by {
            assert(forall|i: int|
                0 <= i < s.drop_first().len() ==> s.drop_first()[i] == s[i + 1]);
        }
        lemma_branches_without_unique(s.drop_first(), id);
        if s[0].id@ != id {
            let r = branches_without(s, id);
            let rt = branches_without(s.drop_first(), id);
            lemma_branches_without_contains(s.drop_first(), id);
            assert forall|i: int, j: int| 0 <= i < j < r.len() implies r[i].id@ != r[j].id@ by {
                if i == 0 {
                    assert(r[j] == rt[j - 1]);
                    assert(s.drop_first().contains(rt[j - 1]));
                    let a = choose|a: int|
                        0 <= a < s.drop_first().len() && s.drop_first()[a] == rt[j - 1];
                    assert(s[a + 1] == rt[j - 1]);
                    assert(s[0].id@ != s[a + 1].id@);
                } else {
                    assert(r[i] == rt[i - 1] && r[j] == rt[j - 1]);
                }
            }
        }
    }
}

/// Every survivor of the removal is an element of the original.
pub proof fn lemma_events_without_session_contains(s: Seq<Event>, sid: Seq<char>)
    ensures
        forall|k: int|
            0 <= k < events_without_session(s, sid).len() ==> s.contains(
                #[trigger] events_without_session(s, sid)[k],
            ),
    decreases s.len(),
{
    if s.len() > 0 {
        lemma_events_without_session_contains(s.drop_first(), sid);
        assert forall|k: int| 0 <= k < events_without_session(s, sid).len() implies s.contains(
            #[trigger] events_without_session(s, sid)[k],
        ) by {
            let r = events_without_session(s, sid);
            let rt = events_without_session(s.drop_first(), sid);
            if s[0].session_id@ == sid {
                assert(r[k] == rt[k]);
                let a = choose|a: int| 0 <= a < s.drop_first().len() && s.drop_first()[a] == rt[k];
                assert(s[a + 1] == rt[k]);
            } else {
                if k > 0 {
                    assert(r[k] == rt[k - 1]);
                    let a = choose|a: int|
                        0 <= a < s.drop_first().len() && s.drop_first()[a] == rt[k - 1];
                    assert(s[a + 1] == rt[k - 1]);
                } else {
                    assert(r[0] == s[0]);
                }
            }
        }
    }
}

/// Removal keeps event-id uniqueness.
pub proof fn lemma_events_without_session_unique(s: Seq<Event>, sid: Seq<char>)
    requires
        unique_event_ids(s),
    ensures
        unique_event_ids(events_without_session(s, sid)),
    decreases s.len(),
{
    if s.len() > 0 {
        assert(forall|i: int, j: int|
            0 <= i < j < s.drop_first().len() ==> s.drop_first()[i].id@
                != s.drop_first()[j].id@) by {
            assert(forall|i: int|
                0 <= i < s.drop_first().len() ==> s.drop_first()[i] == s[i + 1]);
        }
        lemma_events_without_session_unique(s.drop_first(), sid);
        if s[0].session_id@ != sid {
            let r = events_without_session(s, sid);
            let rt = events_without_session(s.drop_first(), sid);
            lemma_events_without_session_contains(s.drop_first(), sid);
            assert forall|i: int, j: int| 0 <= i < j < r.len() implies r[i].id@ != r[j].id@ by {
                if i == 0 {
                    assert(r[j] == rt[j - 1]);
                    assert(s.drop_first().contains(rt[j - 1]));
                    let a = choose|a: int|
                        0 <= a < s.drop_first().len() && s.drop_first()[a] == rt[j - 1];
                    assert(s[a + 1] == rt[j - 1]);
                    assert(s[0].id@ != s[a + 1].id@);
                } else {
                    assert(r[i] == rt[i - 1] && r[j] == rt[j - 1]);
                }
            }
        }
    }
}

} // verus!
