//! Recorded occurrences: the event data model.
//!
//! Timestamps are kept as milliseconds since the Unix epoch, so that
//! contracts and codecs speak of plain integers.

use vstd::prelude::*;

verus! {

/// What happened to a watched file.
pub enum FileChangeType {
    Created,
    Modified,
    Deleted,
    Renamed { old_path: String },
}

/// View of [`FileChangeType`].
pub enum FileChangeTypeV {
    Created,
    Modified,
    Deleted,
    Renamed { old_path: Seq<char> },
}

impl View for FileChangeType {
    type V = FileChangeTypeV;

    open spec fn view(&self) -> FileChangeTypeV {
        match self {
            FileChangeType::Created => FileChangeTypeV::Created,
            FileChangeType::Modified => FileChangeTypeV::Modified,
            FileChangeType::Deleted => FileChangeTypeV::Deleted,
            FileChangeType::Renamed { old_path } => FileChangeTypeV::Renamed {
                old_path: old_path@,
            },
        }
    }
}

impl Clone for FileChangeType {
    fn clone(&self) -> (r: Self)
        ensures
            r@ == self@,
    {
        match self {
            FileChangeType::Created => FileChangeType::Created,
            FileChangeType::Modified => FileChangeType::Modified,
            FileChangeType::Deleted => FileChangeType::Deleted,
            FileChangeType::Renamed { old_path } => FileChangeType::Renamed {
                old_path: old_path.clone(),
            },
        }
    }
}

/// The tagged variant describing what one event records.
pub enum EventType {
    /// A keystroke.
    KeyPress { key: String, timestamp: i64 },
    /// A command execution with its captured output.
    Command {
        command: String,
        output: String,
        exit_code: i32,
        working_directory: String,
        timestamp: i64,
    },
    /// A file-system change.
    FileChange {
        path: String,
        change_type: FileChangeType,
        content_hash: Option<String>,
        timestamp: i64,
    },
    /// A terminal-state snapshot.
    TerminalState {
        cursor_position: (u16, u16),
        screen_size: (u16, u16),
        timestamp: i64,
    },
    /// A session-metadata marker.
    SessionMetadata { name: String, created_at: i64, timestamp: i64 },
}

/// View of [`EventType`].
pub enum EventTypeV {
    KeyPress { key: Seq<char>, timestamp: i64 },
    Command {
        command: Seq<char>,
        output: Seq<char>,
        exit_code: i32,
        working_directory: Seq<char>,
        timestamp: i64,
    },
    FileChange {
        path: Seq<char>,
        change_type: FileChangeTypeV,
        content_hash: Option<Seq<char>>,
        timestamp: i64,
    },
    TerminalState {
        cursor_position: (u16, u16),
        screen_size: (u16, u16),
        timestamp: i64,
    },
    SessionMetadata { name: Seq<char>, created_at: i64, timestamp: i64 },
}

impl View for EventType {
    type V = EventTypeV;

    open spec fn view(&self) -> EventTypeV {
        match self {
            EventType::KeyPress { key, timestamp } => EventTypeV::KeyPress {
                key: key@,
                timestamp: *timestamp,
            },
            EventType::Command { command, output, exit_code, working_directory, timestamp } => {
                EventTypeV::Command {
                    command: command@,
                    output: output@,
                    exit_code: *exit_code,
                    working_directory: working_directory@,
                    timestamp: *timestamp,
                }
            },
            EventType::FileChange { path, change_type, content_hash, timestamp } => {
                EventTypeV::FileChange {
                    path: path@,
                    change_type: change_type@,
                    content_hash: match content_hash {
                        Some(h) => Some(h@),
                        None => None,
                    },
                    timestamp: *timestamp,
                }
            },
            EventType::TerminalState { cursor_position, screen_size, timestamp } => {
                EventTypeV::TerminalState {
                    cursor_position: *cursor_position,
                    screen_size: *screen_size,
                    timestamp: *timestamp,
                }
            },
            EventType::SessionMetadata { name, created_at, timestamp } => {
                EventTypeV::SessionMetadata {
                    name: name@,
                    created_at: *created_at,
                    timestamp: *timestamp,
                }
            },
        }
    }
}

impl Clone for EventType {
    fn clone(&self) -> (r: Self)
        ensures
            r@ == self@,
    {
        match self {
            EventType::KeyPress { key, timestamp } => EventType::KeyPress {
                key: key.clone(),
                timestamp: *timestamp,
            },
            EventType::Command { command, output, exit_code, working_directory, timestamp } => {
                EventType::Command {
                    command: command.clone(),
                    output: output.clone(),
                    exit_code: *exit_code,
                    working_directory: working_directory.clone(),
                    timestamp: *timestamp,
                }
            },
            EventType::FileChange { path, change_type, content_hash, timestamp } => {
                EventType::FileChange {
                    path: path.clone(),
                    change_type: change_type.clone(),
                    content_hash: match content_hash {
                        Some(h) => Some(h.clone()),
                        None => None,
                    },
                    timestamp: *timestamp,
                }
            },
            EventType::TerminalState { cursor_position, screen_size, timestamp } => {
                EventType::TerminalState {
                    cursor_position: *cursor_position,
                    screen_size: *screen_size,
                    timestamp: *timestamp,
                }
            },
            EventType::SessionMetadata { name, created_at, timestamp } => {
                EventType::SessionMetadata {
                    name: name.clone(),
                    created_at: *created_at,
                    timestamp: *timestamp,
                }
            },
        }
    }
}

/// One recorded occurrence.
pub struct Event {
    /// Opaque unique identifier; the storage keys events by it.
    pub id: String,
    /// The owning session's identifier.
    pub session_id: String,
    /// What happened.
    pub event_type: EventType,
    /// Caller-assigned, per-session monotonically ordered position.
    pub sequence_number: u64,
    /// Milliseconds since the Unix epoch.
    pub timestamp: i64,
}

/// View of [`Event`].
pub struct EventV {
    pub id: Seq<char>,
    pub session_id: Seq<char>,
    pub event_type: EventTypeV,
    pub sequence_number: u64,
    pub timestamp: i64,
}

impl View for Event {
    type V = EventV;

    open spec fn view(&self) -> EventV {
        EventV {
            id: self.id@,
            session_id: self.session_id@,
            event_type: self.event_type@,
            sequence_number: self.sequence_number,
            timestamp: self.timestamp,
        }
    }
}

impl Clone for Event {
    fn clone(&self) -> (r: Self)
        ensures
            r@ == self@,
    {
        Event {
            id: self.id.clone(),
            session_id: self.session_id.clone(),
            event_type: self.event_type.clone(),
            sequence_number: self.sequence_number,
            timestamp: self.timestamp,
        }
    }
}

} // verus!
