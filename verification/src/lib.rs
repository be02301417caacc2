//! Persistence core of a terminal-session recorder.
//!
//! The library keeps three keyed collections (events by session, sessions by
//! id, timeline branches by id) in memory, and persists them through an
//! explicit image of the backing files: a full snapshot, an append-only event
//! log, and the rotated archives of that log.  Callers that talk to a real
//! file system read those images out of the handle and write them to disk;
//! everything the engine decides — encodings, encryption, replay, rotation,
//! retention — is verified here.

use vstd::prelude::*;

pub mod ai;
pub mod branch;
pub mod codec;
pub mod crypto;
pub mod error;
pub mod event;
pub mod laws;
pub mod log;
pub mod recorder;
pub mod records;
pub mod session;
pub mod sort;
pub mod state;
pub mod store;
pub mod text;

pub use branch::TimelineBranch;
pub use branch::{BranchManager, BranchTimeline};
pub use error::TimeLoopError;
pub use event::{Event, EventType, FileChangeType};
pub use recorder::EventRecorder;
pub use session::{Session, SessionManager, SessionSummary};
pub use ai::ApiProvider;
pub use store::{Storage, StorageFiles, LogArchive, PersistenceFormat, Argon2Config, AutosavePolicy, CompactionPolicy, StorageConfig};

verus! {

/// Result type used throughout the storage engine.
pub type TlResult<T> = core::result::Result<T, TimeLoopError>;

} // verus!
