//! Event recording: the caller-side allocator of per-session sequence
//! numbers.
//!
//! The storage engine never assigns sequence numbers; a recorder owns a
//! session's counter, resumes it from the highest stored number, and
//! stamps each recorded occurrence with a fresh identifier, the next
//! number and the present time.

use vstd::prelude::*;
use crate::event::{Event, EventType, EventV, FileChangeType};
use crate::state::{event_views, events_of_session};
use crate::store::{Storage, upsert_event_view};
use crate::error::TimeLoopError;
use crate::TlResult;
use crate::crypto::{new_uuid_string, now_millis};

verus! {

/// Records events into one session through a storage handle.
pub struct EventRecorder {
    /// The session the recorder writes into.
    pub session_id: String,
    /// The handle written through.
    pub storage: Storage,
    /// The last sequence number handed out.
    pub sequence_counter: u64,
}

impl EventRecorder {
    /// The recorder's invariant: its handle's.
    pub open spec fn wf(self) -> bool {
        self.storage.wf()
    }

    /// Record into the given session, resuming the sequence counter from
    /// the highest stored number so that a new recorder does not reuse
    /// numbers.
    pub fn with_storage(session_id: &String, storage: Storage) -> (r: EventRecorder)
        requires
            storage.wf(),
        ensures
            r.wf(),
            r.session_id@ == session_id@,
            r.storage == storage,
    {
        let last_seq: u64 = match storage.get_last_event(session_id) {
            Some(e) => e.sequence_number,
            None => 0,
        };
        EventRecorder {
            session_id: session_id.clone(),
            storage,
            sequence_counter: last_seq,
        }
    }

    /// Stamp and store one occurrence.  Fails without storing when the
    /// sequence counter is exhausted.
    fn store_stamped(&mut self, event_type: EventType) -> (r: TlResult<()>)
        requires
            old(self).wf(),
        ensures
            final(self).wf(),
            final(self).session_id == old(self).session_id,
            r is Ok ==> final(self).sequence_counter == old(self).sequence_counter + 1,
            r matches Ok(_) ==> (exists|e: EventV|
                {
                    &&& event_views(final(self).storage.state.events@)
                        == #[trigger] upsert_event_view(
                        event_views(old(self).storage.state.events@),
                        e,
                    )
                    &&& e.session_id == old(self).session_id@
                    &&& e.sequence_number == old(self).sequence_counter + 1
                    &&& e.event_type == event_type@
                }),
            r matches Err(e) ==> e is Storage,
            old(self).sequence_counter < u64::MAX && old(self).storage.encryption_key
                is None ==> r is Ok,
    {
        if self.sequence_counter == u64::MAX {
            return Err(
                TimeLoopError::Storage(String::from_str("sequence counter exhausted")),
            );
        }
        let seq = self.sequence_counter + 1;
        let event = Event {
            id: new_uuid_string(),
            session_id: self.session_id.clone(),
            event_type,
            sequence_number: seq,
            timestamp: now_millis(),
        };
        match self.storage.store_event(&event) {
            Ok(_) => {
                self.sequence_counter = seq;
                Ok(())
            },
            Err(e) => {
                self.sequence_counter = seq;
                Err(e)
            },
        }
    }

    /// Record a keystroke.
    pub fn record_key_press(&mut self, key: &String) -> (r: TlResult<()>)
        requires
            old(self).wf(),
        ensures
            final(self).wf(),
            final(self).session_id == old(self).session_id,
            r is Ok ==> final(self).sequence_counter == old(self).sequence_counter + 1,
            r matches Ok(_) ==> (exists|e: EventV|
                {
                    &&& event_views(final(self).storage.state.events@)
                        == #[trigger] upsert_event_view(
                        event_views(old(self).storage.state.events@),
                        e,
                    )
                    &&& e.session_id == old(self).session_id@
                    &&& e.sequence_number == old(self).sequence_counter + 1
                    &&& e.event_type matches crate::event::EventTypeV::KeyPress { key: k, .. }
                        && k == key@
                }),
            r matches Err(e) ==> e is Storage,
            old(self).sequence_counter < u64::MAX && old(self).storage.encryption_key
                is None ==> r is Ok,
    {
        let ts = now_millis();
        self.store_stamped(EventType::KeyPress { key: key.clone(), timestamp: ts })
    }

    /// Record a command execution with its captured output.
    pub fn record_command(
        &mut self,
        command: &String,
        output: &String,
        exit_code: i32,
        working_dir: &String,
    ) -> (r: TlResult<()>)
        requires
            old(self).wf(),
        ensures
            final(self).wf(),
            final(self).session_id == old(self).session_id,
            r is Ok ==> final(self).sequence_counter == old(self).sequence_counter + 1,
            r matches Ok(_) ==> (exists|e: EventV|
                {
                    &&& event_views(final(self).storage.state.events@)
                        == #[trigger] upsert_event_view(
                        event_views(old(self).storage.state.events@),
                        e,
                    )
                    &&& e.session_id == old(self).session_id@
                    &&& e.sequence_number == old(self).sequence_counter + 1
                    &&& e.event_type matches crate::event::EventTypeV::Command {
                        command: c,
                        output: o,
                        exit_code: x,
                        working_directory: w,
                        ..
                    } && c == command@ && o == output@ && x == exit_code && w
                        == working_dir@
                }),
            r matches Err(e) ==> e is Storage,
            old(self).sequence_counter < u64::MAX && old(self).storage.encryption_key
                is None ==> r is Ok,
    {
        let ts = now_millis();
        self.store_stamped(
            EventType::Command {
                command: command.clone(),
                output: output.clone(),
                exit_code,
                working_directory: working_dir.clone(),
                timestamp: ts,
            },
        )
    }

    /// Record a file-system change.
    pub fn record_file_change(&mut self, path: &String, change_type: FileChangeType) -> (r:
        TlResult<()>)
        requires
            old(self).wf(),
        ensures
            final(self).wf(),
            final(self).session_id == old(self).session_id,
            r is Ok ==> final(self).sequence_counter == old(self).sequence_counter + 1,
            r matches Ok(_) ==> (exists|e: EventV|
                {
                    &&& event_views(final(self).storage.state.events@)
                        == #[trigger] upsert_event_view(
                        event_views(old(self).storage.state.events@),
                        e,
                    )
                    &&& e.session_id == old(self).session_id@
                    &&& e.sequence_number == old(self).sequence_counter + 1
                    &&& e.event_type matches crate::event::EventTypeV::FileChange {
                        path: p,
                        change_type: ct,
                        ..
                    } && p == path@ && ct == change_type@
                }),
            r matches Err(e) ==> e is Storage,
            old(self).sequence_counter < u64::MAX && old(self).storage.encryption_key
                is None ==> r is Ok,
    {
        let ts = now_millis();
        self.store_stamped(
            EventType::FileChange {
                path: path.clone(),
                change_type,
                content_hash: None,
                timestamp: ts,
            },
        )
    }

    /// Record a terminal-state snapshot.
    pub fn record_terminal_state(
        &mut self,
        cursor_pos: (u16, u16),
        screen_size: (u16, u16),
    ) -> (r: TlResult<()>)
        requires
            old(self).wf(),
        ensures
            final(self).wf(),
            final(self).session_id == old(self).session_id,
            r is Ok ==> final(self).sequence_counter == old(self).sequence_counter + 1,
            r matches Ok(_) ==> (exists|e: EventV|
                {
                    &&& event_views(final(self).storage.state.events@)
                        == #[trigger] upsert_event_view(
                        event_views(old(self).storage.state.events@),
                        e,
                    )
                    &&& e.session_id == old(self).session_id@
                    &&& e.sequence_number == old(self).sequence_counter + 1
                    &&& e.event_type matches crate::event::EventTypeV::TerminalState {
                        cursor_position: cp,
                        screen_size: ss,
                        ..
                    } && cp == cursor_pos && ss == screen_size
                }),
            r matches Err(e) ==> e is Storage,
            old(self).sequence_counter < u64::MAX && old(self).storage.encryption_key
                is None ==> r is Ok,
    {
        let ts = now_millis();
        self.store_stamped(
            EventType::TerminalState {
                cursor_position: cursor_pos,
                screen_size,
                timestamp: ts,
            },
        )
    }

    /// One session's events, sorted by sequence number.
    pub fn get_events_for_session(&self, session_id: &String) -> (r: Vec<Event>)
        ensures
            event_views(r@).to_multiset() == event_views(
                events_of_session(self.storage.state.events@, session_id@),
            ).to_multiset(),
            crate::sort::events_sorted_by_seq(r@),
    {
        self.storage.get_events_for_session(session_id)
    }

    /// The highest-sequence-number event of one session, if any.
    pub fn get_last_event(&self, session_id: &String) -> (r: Option<Event>)
        ensures
            r is None ==> events_of_session(self.storage.state.events@, session_id@).len()
                == 0,
    {
        self.storage.get_last_event(session_id)
    }

    /// Remove every event keyed to one session.
    pub fn clear_session_events(&mut self, session_id: &String) -> (r: TlResult<()>)
        requires
            old(self).wf(),
        ensures
            final(self).wf(),
            final(self).storage.state.events@ == crate::state::events_without_session(
                old(self).storage.state.events@,
                session_id@,
            ),
    {
        self.storage.clear_session_events(session_id)
    }
}

} // verus!
