//! Timeline branches: a fork of a session pinned to an exact divergence
//! point in the parent session.

use vstd::prelude::*;
use crate::event::Event;
use crate::state::{event_views, find_branch_seq};
use crate::store::{Storage, upsert_branch_view};
use crate::sort::{events_sorted_by_seq, sorted_events};
use crate::records::branch_views;
use crate::error::TimeLoopError;
use crate::TlResult;
use crate::crypto::{new_uuid_string, now_millis};

verus! {

/// A branch record.  Distinct from [`crate::session::Session`]'s parent
/// relation: a branch additionally pins the event at which it diverges.
pub struct TimelineBranch {
    /// Opaque unique identifier; the storage keys branches by it.
    pub id: String,
    /// Display name.
    pub name: String,
    /// The session this branch diverges from.
    pub parent_session_id: String,
    /// The event in the parent session at which the branch diverges.
    pub branch_point_event_id: String,
    /// Creation time, milliseconds since the Unix epoch.
    pub created_at: i64,
    /// Optional free-form description.
    pub description: Option<String>,
}

/// View of [`TimelineBranch`].
pub struct TimelineBranchV {
    pub id: Seq<char>,
    pub name: Seq<char>,
    pub parent_session_id: Seq<char>,
    pub branch_point_event_id: Seq<char>,
    pub created_at: i64,
    pub description: Option<Seq<char>>,
}

impl View for TimelineBranch {
    type V = TimelineBranchV;

    open spec fn view(&self) -> TimelineBranchV {
        TimelineBranchV {
            id: self.id@,
            name: self.name@,
            parent_session_id: self.parent_session_id@,
            branch_point_event_id: self.branch_point_event_id@,
            created_at: self.created_at,
            description: match self.description {
                Some(ref d) => Some(d@),
                None => None,
            },
        }
    }
}

impl Clone for TimelineBranch {
    fn clone(&self) -> (r: Self)
        ensures
            r@ == self@,
    {
        TimelineBranch {
            id: self.id.clone(),
            name: self.name.clone(),
            parent_session_id: self.parent_session_id.clone(),
            branch_point_event_id: self.branch_point_event_id.clone(),
            created_at: self.created_at,
            description: match &self.description {
                Some(d) => Some(d.clone()),
                None => None,
            },
        }
    }
}

/// The branches that diverge from one session, in storage order.
pub open spec fn branches_of_session(s: Seq<TimelineBranch>, sid: Seq<char>) -> Seq<
    TimelineBranch,
>
    decreases s.len(),
{
    if s.len() == 0 {
        Seq::empty()
    } else if s[0].parent_session_id@ == sid {
        seq![s[0]] + branches_of_session(s.drop_first(), sid)
    } else {
        branches_of_session(s.drop_first(), sid)
    }
}

/// Push distributes over the per-session branch projection.
proof fn lemma_branches_of_session_push(s: Seq<TimelineBranch>, b: TimelineBranch, sid: Seq<char>)
    ensures
        branches_of_session(s.push(b), sid) == if b.parent_session_id@ == sid {
            branches_of_session(s, sid).push(b)
        } else {
            branches_of_session(s, sid)
        },
    decreases s.len(),
{
    reveal_with_fuel(branches_of_session, 3);
    if s.len() == 0 {
        assert(s.push(b).drop_first() =~= Seq::<TimelineBranch>::empty());
        if b.parent_session_id@ == sid {
            assert(branches_of_session(s.push(b), sid) =~= branches_of_session(s, sid).push(
                b,
            ));
        }
    } else {
        assert(s.push(b).drop_first() =~= s.drop_first().push(b));
        lemma_branches_of_session_push(s.drop_first(), b, sid);
        if b.parent_session_id@ == sid {
            assert(branches_of_session(s.push(b), sid) =~= branches_of_session(s, sid).push(
                b,
            ));
        } else {
            assert(branches_of_session(s.push(b), sid) =~= branches_of_session(s, sid));
        }
    }
}

/// A branch plus the event timelines it relates: the parent session's
/// events up to and including the divergence point, and the branch's own
/// events.
pub struct BranchTimeline {
    pub branch: TimelineBranch,
    pub parent_events: Vec<Event>,
    pub branch_events: Vec<Event>,
}

impl BranchTimeline {
    /// Parent prefix and branch events merged, ordered by sequence
    /// number.
    pub fn get_all_events(&self) -> (r: Vec<Event>)
        ensures
            event_views(r@).to_multiset() == event_views(self.parent_events@).to_multiset()
                .add(event_views(self.branch_events@).to_multiset()),
            events_sorted_by_seq(r@),
    {
        let mut all: Vec<Event> = Vec::new();
        let n1 = self.parent_events.len();
        let mut i: usize = 0;
        while i < n1
            invariant
                i <= n1,
                n1 == self.parent_events@.len(),
                event_views(all@) == event_views(self.parent_events@.take(i as int)),
            decreases n1 - i,
        {
            let ghost pre = all@;
            all.push(self.parent_events[i].clone());
            proof {
                assert(event_views(pre).len() == pre.len());
                assert(event_views(self.parent_events@.take(i as int)).len() == i);
                assert forall|k: int| 0 <= k < all@.len() implies event_views(all@)[k]
                    == event_views(self.parent_events@.take(i + 1))[k] by {
                    if k < pre.len() {
                        assert(all@[k] == pre[k]);
                        assert(event_views(pre)[k] == event_views(
                            self.parent_events@.take(i as int),
                        )[k]);
                    } else {
                        assert(all@[k]@ == self.parent_events@[i as int]@);
                    }
                }
                assert(event_views(all@) =~= event_views(self.parent_events@.take(i + 1)));
            }
            i = i + 1;
        }
        let n2 = self.branch_events.len();
        let mut j: usize = 0;
        proof {
            assert(self.parent_events@.take(n1 as int) =~= self.parent_events@);
        }
        while j < n2
            invariant
                j <= n2,
                n2 == self.branch_events@.len(),
                event_views(all@) == event_views(self.parent_events@) + event_views(
                    self.branch_events@.take(j as int),
                ),
            decreases n2 - j,
        {
            let ghost pre = all@;
            all.push(self.branch_events[j].clone());
            proof {
                assert(event_views(pre).len() == pre.len());
                let lhs = event_views(self.parent_events@) + event_views(
                    self.branch_events@.take(j + 1),
                );
                assert forall|k: int| 0 <= k < all@.len() implies event_views(all@)[k]
                    == lhs[k] by {
                    if k < pre.len() {
                        assert(all@[k] == pre[k]);
                        assert(event_views(pre)[k] == (event_views(self.parent_events@)
                            + event_views(self.branch_events@.take(j as int)))[k]);
                        if k < event_views(self.parent_events@).len() {
                        } else {
                            assert(event_views(self.branch_events@.take(j + 1))[k
                                - event_views(self.parent_events@).len()] == event_views(
                                self.branch_events@.take(j as int),
                            )[k - event_views(self.parent_events@).len()]);
                        }
                    } else {
                        assert(all@[k]@ == self.branch_events@[j as int]@);
                    }
                }
                assert(event_views(all@) =~= lhs);
            }
            j = j + 1;
        }
        proof {
            assert(self.branch_events@.take(n2 as int) =~= self.branch_events@);
            vstd::seq_lib::lemma_multiset_commutative(
                event_views(self.parent_events@),
                event_views(self.branch_events@),
            );
        }
        sorted_events(all)
    }

    /// The event at which the branch diverges: the last of the parent
    /// prefix.
    pub fn get_divergence_point(&self) -> (r: Option<&Event>)
        ensures
            match r {
                Some(e) => self.parent_events@.len() > 0 && *e == self.parent_events@.last(),
                None => self.parent_events@.len() == 0,
            },
    {
        if self.parent_events.len() == 0 {
            None
        } else {
            Some(&self.parent_events[self.parent_events.len() - 1])
        }
    }

    /// Milliseconds between the branch's first and last events, when both
    /// exist and their distance fits the result.
    pub fn get_branch_duration(&self) -> (r: Option<i64>)
        ensures
            self.branch_events@.len() == 0 ==> r is None,
            r matches Some(d) ==> self.branch_events@.len() > 0 && d
                == self.branch_events@.last().timestamp
                - self.branch_events@.first().timestamp,
    {
        if self.branch_events.len() == 0 {
            return None;
        }
        let first = self.branch_events[0].timestamp;
        let last = self.branch_events[self.branch_events.len() - 1].timestamp;
        last.checked_sub(first)
    }
}

/// Branch management over a storage handle.
pub struct BranchManager {
    pub storage: Storage,
}

impl BranchManager {
    /// The manager's invariant: its handle's.
    pub open spec fn wf(self) -> bool {
        self.storage.wf()
    }

    /// Manage branches through the given handle.
    pub fn with_storage(storage: Storage) -> (r: BranchManager)
        requires
            storage.wf(),
        ensures
            r.wf(),
            r.storage == storage,
    {
        BranchManager { storage }
    }

    /// Create a branch of a session at a divergence event, under a fresh
    /// identifier, and store it.
    pub fn create_branch(
        &mut self,
        parent_session_id: &String,
        name: &String,
        branch_point_event_id: &String,
        description: Option<&String>,
    ) -> (r: TlResult<String>)
        requires
            old(self).wf(),
        ensures
            final(self).wf(),
            r matches Ok(id) ==> id@.len() == 36 && (exists|b: TimelineBranchV|
                {
                    &&& branch_views(final(self).storage.state.branches@)
                        == #[trigger] upsert_branch_view(
                        branch_views(old(self).storage.state.branches@),
                        b,
                    )
                    &&& b.id == id@
                    &&& b.name == name@
                    &&& b.parent_session_id == parent_session_id@
                    &&& b.branch_point_event_id == branch_point_event_id@
                    &&& b.description == match description {
                        Some(d) => Some(d@),
                        None => None,
                    }
                }),
            r matches Err(e) ==> e is Storage && old(self).storage.encryption_key is Some,
    {
        let branch_id = new_uuid_string();
        let branch = TimelineBranch {
            id: branch_id.clone(),
            name: name.clone(),
            parent_session_id: parent_session_id.clone(),
            branch_point_event_id: branch_point_event_id.clone(),
            created_at: now_millis(),
            description: match description {
                Some(d) => Some(d.clone()),
                None => None,
            },
        };
        match self.storage.store_branch(&branch) {
            Ok(_) => {
                proof {
                    assert(branch@ == TimelineBranchV {
                        id: branch_id@,
                        name: name@,
                        parent_session_id: parent_session_id@,
                        branch_point_event_id: branch_point_event_id@,
                        created_at: branch.created_at,
                        description: match description {
                            Some(d) => Some(d@),
                            None => None,
                        },
                    });
                }
                Ok(branch_id)
            },
            Err(e) => Err(e),
        }
    }

    /// Look one branch up by id.
    pub fn get_branch(&self, branch_id: &String) -> (r: Option<TimelineBranch>)
        ensures
            match (r, find_branch_seq(self.storage.state.branches@, branch_id@)) {
                (Some(a), Some(b)) => a@ == b@,
                (None, None) => true,
                _ => false,
            },
    {
        self.storage.get_branch(branch_id)
    }

    /// Every branch, sorted by creation time.
    pub fn list_branches(&self) -> (r: Vec<TimelineBranch>)
        ensures
            branch_views(r@).to_multiset() == branch_views(
                self.storage.state.branches@,
            ).to_multiset(),
            crate::sort::branches_sorted_by_created(r@),
    {
        self.storage.list_branches()
    }

    /// The branches that diverge from one session, in storage order.
    pub fn get_branches_for_session(&self, session_id: &String) -> (r: Vec<TimelineBranch>)
        ensures
            branch_views(r@) == branch_views(
                branches_of_session(self.storage.state.branches@, session_id@),
            ),
    {
        let n = self.storage.state.branches.len();
        let mut out: Vec<TimelineBranch> = Vec::new();
        let mut i: usize = 0;
        while i < n
            invariant
                i <= n,
                n == self.storage.state.branches@.len(),
                branch_views(out@) == branch_views(
                    branches_of_session(
                        self.storage.state.branches@.take(i as int),
                        session_id@,
                    ),
                ),
            decreases n - i,
        {
            let ghost pre = out@;
            if self.storage.state.branches[i].parent_session_id == *session_id {
                out.push(self.storage.state.branches[i].clone());
            }
            proof {
                assert(self.storage.state.branches@.take(i + 1)
                    =~= self.storage.state.branches@.take(i as int).push(
                    self.storage.state.branches@[i as int],
                ));
                lemma_branches_of_session_push(
                    self.storage.state.branches@.take(i as int),
                    self.storage.state.branches@[i as int],
                    session_id@,
                );
                let xb = branches_of_session(
                    self.storage.state.branches@.take(i as int),
                    session_id@,
                );
                assert(branch_views(pre).len() == pre.len());
                assert(branch_views(xb).len() == xb.len());
                assert(pre.len() == xb.len());
                let yb = branches_of_session(
                    self.storage.state.branches@.take(i + 1),
                    session_id@,
                );
                assert forall|k: int| 0 <= k < out@.len() implies branch_views(out@)[k]
                    == branch_views(yb)[k] by {
                    if k < pre.len() {
                        assert(out@[k] == pre[k]);
                        assert(branch_views(pre)[k] == branch_views(xb)[k]);
                        assert(yb[k] == xb[k]);
                    } else {
                        assert(out@[k]@ == self.storage.state.branches@[i as int]@);
                        assert(yb[k] == self.storage.state.branches@[i as int]);
                    }
                }
                assert(branch_views(out@).len() == branch_views(yb).len());
                assert(branch_views(out@) =~= branch_views(yb));
            }
            i = i + 1;
        }
        proof {
            assert(self.storage.state.branches@.take(n as int)
                =~= self.storage.state.branches@);
        }
        out
    }

    /// The parent session's events up to and including the branch's
    /// divergence point, in sequence order.
    pub fn replay_branch(&self, branch_id: &String) -> (r: TlResult<Vec<Event>>)
        ensures
            find_branch_seq(self.storage.state.branches@, branch_id@) is None ==> (r
                matches Err(e) && e is Branch),
            r matches Err(e) ==> e is Branch,
            r matches Ok(v) ==> events_sorted_by_seq(v@),
    {
        let branch = match self.get_branch(branch_id) {
            Some(b) => b,
            None => {
                return Err(
                    TimeLoopError::Branch(String::from_str("branch not found")),
                );
            },
        };
        let events = self.storage.get_events_for_session(&branch.parent_session_id);
        let n = events.len();
        let mut idx: usize = 0;
        let mut found: bool = false;
        while idx < n && !found
            invariant
                idx <= n,
                n == events@.len(),
                found ==> idx < n && events@[idx as int].id@
                    == branch.branch_point_event_id@,
            decreases n - idx + if found {
                0int
            } else {
                1int
            },
        {
            if events[idx].id == branch.branch_point_event_id {
                found = true;
            } else {
                idx = idx + 1;
            }
        }
        if !found {
            return Err(
                TimeLoopError::Branch(String::from_str("branch point event not found")),
            );
        }
        let mut out: Vec<Event> = Vec::new();
        let mut i: usize = 0;
        while i <= idx
            invariant
                idx < n,
                n == events@.len(),
                i <= idx + 1,
                out@.len() == i,
                forall|k: int| 0 <= k < i ==> out@[k]@ == events@[k]@,
                forall|k: int| 0 <= k < i ==> out@[k].sequence_number
                    == events@[k].sequence_number,
                events_sorted_by_seq(events@),
            decreases idx + 1 - i,
        {
            out.push(events[i].clone());
            i = i + 1;
        }
        proof {
            assert forall|a: int, b: int|
                0 <= a < b < out@.len() implies out@[a].sequence_number
                <= out@[b].sequence_number by {
                assert(out@[a].sequence_number == events@[a].sequence_number);
                assert(out@[b].sequence_number == events@[b].sequence_number);
            }
        }
        Ok(out)
    }

    /// The branch, its parent prefix, and its own events, bundled.
    pub fn get_branch_timeline(&self, branch_id: &String) -> (r: TlResult<BranchTimeline>)
        ensures
            find_branch_seq(self.storage.state.branches@, branch_id@) is None ==> (r
                matches Err(e) && e is Branch),
            r matches Ok(t) ==> (find_branch_seq(self.storage.state.branches@, branch_id@)
                matches Some(b) && t.branch@ == b@) && events_sorted_by_seq(
                t.branch_events@,
            ),
            r matches Err(e) ==> e is Branch,
    {
        let branch = match self.get_branch(branch_id) {
            Some(b) => b,
            None => {
                return Err(
                    TimeLoopError::Branch(String::from_str("branch not found")),
                );
            },
        };
        let parent_events = match self.replay_branch(branch_id) {
            Ok(v) => v,
            Err(e) => {
                return Err(e);
            },
        };
        let branch_events = self.storage.get_events_for_session(branch_id);
        Ok(BranchTimeline { branch, parent_events, branch_events })
    }

    /// Copy a branch's events into a target session, under fresh
    /// identifiers, storing each as `store_event` would.
    pub fn merge_branch(&mut self, branch_id: &String, target_session_id: &String) -> (r:
        TlResult<()>)
        requires
            old(self).wf(),
        ensures
            final(self).wf(),
            find_branch_seq(old(self).storage.state.branches@, branch_id@) is None ==> (r
                matches Err(e) && e is Branch),
            r matches Err(e) && e is Storage ==> old(self).storage.encryption_key is Some,
    {
        let timeline = match self.get_branch_timeline(branch_id) {
            Ok(t) => t,
            Err(e) => {
                return Err(e);
            },
        };
        let n = timeline.branch_events.len();
        let mut i: usize = 0;
        while i < n
            invariant
                i <= n,
                n == timeline.branch_events@.len(),
                self.wf(),
                self.storage.encryption_key == old(self).storage.encryption_key,
                find_branch_seq(old(self).storage.state.branches@, branch_id@) is Some,
            decreases n - i,
        {
            let mut copied = timeline.branch_events[i].clone();
            copied.session_id = target_session_id.clone();
            copied.id = new_uuid_string();
            match self.storage.store_event(&copied) {
                Ok(_) => {},
                Err(e) => {
                    return Err(e);
                },
            }
            i = i + 1;
        }
        Ok(())
    }

    /// Remove a branch and every event keyed to its id.
    pub fn delete_branch(&mut self, branch_id: &String) -> (r: TlResult<()>)
        requires
            old(self).wf(),
        ensures
            final(self).wf(),
            final(self).storage.state.branches@ == crate::state::branches_without(
                old(self).storage.state.branches@,
                branch_id@,
            ),
            r matches Err(e) ==> e is Storage && old(self).storage.encryption_key is Some,
    {
        self.storage.delete_branch(branch_id)
    }
}

} // verus!
