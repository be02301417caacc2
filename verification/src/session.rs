//! Session metadata: one recorded terminal session, possibly a branch of
//! another session.

use vstd::prelude::*;
use vstd::string::StringExecFns;
use crate::event::{Event, EventType};
use crate::state::{event_views, events_of_session, find_session_seq, sessions_without};
use crate::store::{Storage, upsert_session_view};
use crate::sort::events_sorted_by_seq;
use crate::records::session_views;
use crate::error::TimeLoopError;
use crate::TlResult;
use crate::crypto::{new_uuid_string, now_millis};

verus! {

/// Metadata of one recorded session.
pub struct Session {
    /// Opaque unique identifier; the storage keys sessions by it.
    pub id: String,
    /// Display name.
    pub name: String,
    /// Creation time, milliseconds since the Unix epoch.
    pub created_at: i64,
    /// End time, if the session has ended.
    pub ended_at: Option<i64>,
    /// When present, this session is a branch of the referenced session.
    /// Referential integrity is not enforced here.
    pub parent_session_id: Option<String>,
    /// Name of the branch relation, when this session is a branch.
    pub branch_name: Option<String>,
}

/// View of [`Session`].
pub struct SessionV {
    pub id: Seq<char>,
    pub name: Seq<char>,
    pub created_at: i64,
    pub ended_at: Option<i64>,
    pub parent_session_id: Option<Seq<char>>,
    pub branch_name: Option<Seq<char>>,
}

impl View for Session {
    type V = SessionV;

    open spec fn view(&self) -> SessionV {
        SessionV {
            id: self.id@,
            name: self.name@,
            created_at: self.created_at,
            ended_at: self.ended_at,
            parent_session_id: match self.parent_session_id {
                Some(ref p) => Some(p@),
                None => None,
            },
            branch_name: match self.branch_name {
                Some(ref b) => Some(b@),
                None => None,
            },
        }
    }
}

impl Clone for Session {
    fn clone(&self) -> (r: Self)
        ensures
            r@ == self@,
    {
        Session {
            id: self.id.clone(),
            name: self.name.clone(),
            created_at: self.created_at,
            ended_at: self.ended_at,
            parent_session_id: match &self.parent_session_id {
                Some(p) => Some(p.clone()),
                None => None,
            },
            branch_name: match &self.branch_name {
                Some(b) => Some(b.clone()),
                None => None,
            },
        }
    }
}

/// Aggregated figures over one session's events.
pub struct SessionSummary {
    pub session_id: String,
    pub name: String,
    /// Duration in milliseconds: end time (or the supplied current time for a
    /// session still running) minus creation time.
    pub duration_ms: i64,
    pub commands_executed: usize,
    pub files_modified: usize,
    pub last_command: String,
    pub created_at: i64,
    pub ended_at: Option<i64>,
}

/// How many command events a sequence holds.
pub open spec fn count_commands(s: Seq<Event>) -> nat
    decreases s.len(),
{
    if s.len() == 0 {
        0
    } else if s[0].event_type is Command {
        1 + count_commands(s.drop_first())
    } else {
        count_commands(s.drop_first())
    }
}

/// How many file-change events a sequence holds.
pub open spec fn count_file_changes(s: Seq<Event>) -> nat
    decreases s.len(),
{
    if s.len() == 0 {
        0
    } else if s[0].event_type is FileChange {
        1 + count_file_changes(s.drop_first())
    } else {
        count_file_changes(s.drop_first())
    }
}

/// The command text of the last command event, empty when there is none.
pub open spec fn last_command_of(s: Seq<Event>) -> Seq<char>
    decreases s.len(),
{
    if s.len() == 0 {
        Seq::empty()
    } else {
        let rest = last_command_of(s.drop_first());
        if s.drop_first().len() == 0 || count_commands(s.drop_first()) == 0 {
            match s[0].event_type {
                EventType::Command { ref command, .. } => command@,
                _ => rest,
            }
        } else {
            rest
        }
    }
}

/// Session management over a storage handle.
pub struct SessionManager {
    pub storage: Storage,
}

impl SessionManager {
    /// The manager's invariant: its handle's.
    pub open spec fn wf(self) -> bool {
        self.storage.wf()
    }

    /// Manage sessions through the given handle.
    pub fn with_storage(storage: Storage) -> (r: SessionManager)
        requires
            storage.wf(),
        ensures
            r.wf(),
            r.storage == storage,
    {
        SessionManager { storage }
    }

    /// Create a session under a fresh identifier and store it.
    pub fn create_session(&mut self, name: &String) -> (r: TlResult<String>)
        requires
            old(self).wf(),
        ensures
            final(self).wf(),
            r matches Ok(id) ==> id@.len() == 36 && (exists|s: SessionV|
                {
                    &&& session_views(final(self).storage.state.sessions@)
                        == #[trigger] upsert_session_view(
                        session_views(old(self).storage.state.sessions@),
                        s,
                    )
                    &&& s.id == id@
                    &&& s.name == name@
                    &&& s.ended_at is None
                    &&& s.parent_session_id is None
                    &&& s.branch_name is None
                }),
            r matches Err(e) ==> e is Storage && old(self).storage.encryption_key is Some,
    {
        let session_id = new_uuid_string();
        let session = Session {
            id: session_id.clone(),
            name: name.clone(),
            created_at: now_millis(),
            ended_at: None,
            parent_session_id: None,
            branch_name: None,
        };
        match self.storage.store_session(&session) {
            Ok(_) => Ok(session_id),
            Err(e) => Err(e),
        }
    }

    /// Fork a session: create a new session under a fresh identifier that
    /// records its parent and the branch name, with a display name derived
    /// from the parent's.
    pub fn create_branch(&mut self, parent_session_id: &String, branch_name: &String) -> (r:
        TlResult<String>)
        requires
            old(self).wf(),
        ensures
            final(self).wf(),
            (r matches Err(e) && e is SessionNotFound) <==> find_session_seq(
                old(self).storage.state.sessions@,
                parent_session_id@,
            ) is None,
            r matches Ok(id) ==> id@.len() == 36 && (exists|s: SessionV|
                {
                    &&& session_views(final(self).storage.state.sessions@)
                        == #[trigger] upsert_session_view(
                        session_views(old(self).storage.state.sessions@),
                        s,
                    )
                    &&& s.id == id@
                    &&& s.parent_session_id == Some(parent_session_id@)
                    &&& s.branch_name == Some(branch_name@)
                }),
            r matches Err(e) ==> e is Storage || e is SessionNotFound,
            r matches Err(e) && e is Storage ==> old(self).storage.encryption_key is Some,
    {
        let parent = match self.storage.get_session(parent_session_id) {
            Some(p) => p,
            None => {
                return Err(TimeLoopError::SessionNotFound(parent_session_id.clone()));
            },
        };
        let branch_id = new_uuid_string();
        let mut display = parent.name.clone();
        display.append(" (branch: ");
        display.append(branch_name.as_str());
        display.append(")");
        let branch_session = Session {
            id: branch_id.clone(),
            name: display,
            created_at: now_millis(),
            ended_at: None,
            parent_session_id: Some(parent_session_id.clone()),
            branch_name: Some(branch_name.clone()),
        };
        match self.storage.store_session(&branch_session) {
            Ok(_) => Ok(branch_id),
            Err(e) => Err(e),
        }
    }

    /// Mark a session as ended now, replacing its stored record; a
    /// session that does not exist is left alone.
    pub fn end_session(&mut self, session_id: &String) -> (r: TlResult<()>)
        requires
            old(self).wf(),
        ensures
            final(self).wf(),
            find_session_seq(old(self).storage.state.sessions@, session_id@) is None
                ==> r is Ok && *final(self) == *old(self),
            r is Ok ==> (match find_session_seq(
                old(self).storage.state.sessions@,
                session_id@,
            ) {
                Some(orig) => (exists|s: SessionV|
                {
                    &&& session_views(final(self).storage.state.sessions@)
                        == #[trigger] upsert_session_view(
                        session_views(old(self).storage.state.sessions@),
                        s,
                    )
                    &&& s.id == orig@.id
                    &&& s.name == orig@.name
                    &&& s.created_at == orig@.created_at
                    &&& s.ended_at is Some
                    &&& s.parent_session_id == orig@.parent_session_id
                    &&& s.branch_name == orig@.branch_name
                }) && final(self).storage.state.events@ == old(self).storage.state.events@
                    && final(self).storage.state.branches@ == old(
                    self,
                ).storage.state.branches@,
                None => true,
            }),
            r matches Err(e) ==> e is Storage && old(self).storage.encryption_key is Some,
    {
        let found = self.storage.get_session(session_id);
        match found {
            Some(mut session) => {
                session.ended_at = Some(now_millis());
                match self.storage.store_session(&session) {
                    Ok(_) => Ok(()),
                    Err(e) => Err(e),
                }
            },
            None => Ok(()),
        }
    }

    /// Look one session up by id.
    pub fn get_session(&self, session_id: &String) -> (r: Option<Session>)
        ensures
            match (r, find_session_seq(self.storage.state.sessions@, session_id@)) {
                (Some(a), Some(b)) => a@ == b@,
                (None, None) => true,
                _ => false,
            },
    {
        self.storage.get_session(session_id)
    }

    /// Every session, sorted by creation time.
    pub fn list_sessions(&self) -> (r: Vec<Session>)
        ensures
            session_views(r@).to_multiset() == session_views(
                self.storage.state.sessions@,
            ).to_multiset(),
            crate::sort::sessions_sorted_by_created(r@),
    {
        self.storage.list_sessions()
    }

    /// Aggregate one session's events: command and file-change counts and
    /// the last command, computed over the events in sequence order.
    pub fn get_session_summary(&self, session_id: &String) -> (r: TlResult<SessionSummary>)
        ensures
            find_session_seq(self.storage.state.sessions@, session_id@) is None ==> (r
                matches Err(e) && e is SessionNotFound),
            r matches Ok(sum) ==> (find_session_seq(
                self.storage.state.sessions@,
                session_id@,
            ) matches Some(sess) && sum.session_id@ == sess.id@ && sum.name@ == sess.name@
                && sum.created_at == sess.created_at && sum.ended_at == sess.ended_at) && (
            exists|s: Seq<Event>|
                {
                    &&& #[trigger] event_views(s).to_multiset() == event_views(
                        events_of_session(self.storage.state.events@, session_id@),
                    ).to_multiset()
                    &&& events_sorted_by_seq(s)
                    &&& sum.commands_executed == count_commands(s)
                    &&& sum.files_modified == count_file_changes(s)
                    &&& sum.last_command@ == last_command_of(s)
                }),
    {
        let session = match self.storage.get_session(session_id) {
            Some(s) => s,
            None => {
                return Err(TimeLoopError::SessionNotFound(session_id.clone()));
            },
        };
        let events = self.storage.get_events_for_session(session_id);
        let n = events.len();
        let mut commands_executed: usize = 0;
        let mut files_modified: usize = 0;
        let mut last_command = String::new();
        let mut i: usize = 0;
        while i < n
            invariant
                i <= n,
                n == events@.len(),
                commands_executed == count_commands(events@.take(i as int)),
                files_modified == count_file_changes(events@.take(i as int)),
                last_command@ == last_command_of(events@.take(i as int)),
                commands_executed <= i,
                files_modified <= i,
            decreases n - i,
        {
            proof {
                assert(events@.take(i + 1) =~= events@.take(i as int).push(
                    events@[i as int],
                ));
                lemma_counts_push(events@.take(i as int), events@[i as int]);
            }
            match &events[i].event_type {
                EventType::Command { command, .. } => {
                    commands_executed = commands_executed + 1;
                    last_command = command.clone();
                },
                EventType::FileChange { .. } => {
                    files_modified = files_modified + 1;
                },
                _ => {},
            }
            i = i + 1;
        }
        proof {
            assert(events@.take(n as int) =~= events@);
        }
        let duration_ms: i64 = match session.ended_at {
            Some(e) => {
                match e.checked_sub(session.created_at) {
                    Some(d) => d,
                    None => 0,
                }
            },
            None => {
                match now_millis().checked_sub(session.created_at) {
                    Some(d) => d,
                    None => 0,
                }
            },
        };
        Ok(
            SessionSummary {
                session_id: session.id,
                name: session.name,
                duration_ms,
                commands_executed,
                files_modified,
                last_command,
                created_at: session.created_at,
                ended_at: session.ended_at,
            },
        )
    }

    /// Remove a session and every event keyed to it.
    pub fn delete_session(&mut self, session_id: &String) -> (r: TlResult<()>)
        requires
            old(self).wf(),
        ensures
            final(self).wf(),
            final(self).storage.state.sessions@ == sessions_without(
                old(self).storage.state.sessions@,
                session_id@,
            ),
            r matches Err(e) ==> e is Storage && old(self).storage.encryption_key is Some,
    {
        self.storage.delete_session(session_id)
    }
}

/// Push steps for the summary counters and the last command.
proof fn lemma_counts_push(s: Seq<Event>, e: Event)
    ensures
        count_commands(s.push(e)) == count_commands(s) + if e.event_type is Command {
            1int
        } else {
            0int
        },
        count_file_changes(s.push(e)) == count_file_changes(s) + if e.event_type
            is FileChange {
            1int
        } else {
            0int
        },
        last_command_of(s.push(e)) == (match e.event_type {
            EventType::Command { ref command, .. } => command@,
            _ => last_command_of(s),
        }),
    decreases s.len(),
{
    reveal_with_fuel(count_commands, 3);
    reveal_with_fuel(count_file_changes, 3);
    reveal_with_fuel(last_command_of, 3);
    if s.len() == 0 {
        assert(s.push(e).drop_first() =~= Seq::<Event>::empty());
    } else {
        assert(s.push(e).drop_first() =~= s.drop_first().push(e));
        lemma_counts_push(s.drop_first(), e);
    }
}

} // verus!
