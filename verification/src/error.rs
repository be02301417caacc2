//! Typed errors surfaced by the storage engine.
//!
//! Serialization failures, decryption failures and the salt-mismatch
//! condition on import are distinct variants, so a caller can tell "file
//! missing" from "file unreadable" from "wrong passphrase" without parsing
//! message strings.

use vstd::prelude::*;
use vstd::string::StringExecFns;

verus! {

/// Error kinds of the storage engine.  Each variant carries a human-readable
/// detail string; the variant itself is the machine-readable classification.
#[derive(Debug)]
pub enum TimeLoopError {
    /// Lock handling or other internal storage failure.
    Storage(String),
    /// A session id was looked up but not present.
    SessionNotFound(String),
    /// File read/write/rename/creation failure (reported by the I/O shell).
    FileSystem(String),
    /// Malformed snapshot, log record or export bundle.
    Serialization(String),
    /// Authenticated decryption failed: wrong passphrase or corrupted data.
    Decryption(String),
    /// An encrypted export bundle was produced under a different salt than
    /// the importing handle's own.
    SaltMismatch(String),
    /// Branch lookup or branch-point resolution failure.
    Branch(String),
    /// An operation was requested on a handle that is not configured for it.
    Configuration(String),
}

impl TimeLoopError {
    /// The detail string carried by the variant.
    pub fn detail(&self) -> (d: &String)
        ensures
            d@ == self.detail_view(),
    {
        match self {
            TimeLoopError::Storage(s) => s,
            TimeLoopError::SessionNotFound(s) => s,
            TimeLoopError::FileSystem(s) => s,
            TimeLoopError::Serialization(s) => s,
            TimeLoopError::Decryption(s) => s,
            TimeLoopError::SaltMismatch(s) => s,
            TimeLoopError::Branch(s) => s,
            TimeLoopError::Configuration(s) => s,
        }
    }

    /// View of the detail string.
    pub open spec fn detail_view(&self) -> Seq<char> {
        match self {
            TimeLoopError::Storage(s) => s@,
            TimeLoopError::SessionNotFound(s) => s@,
            TimeLoopError::FileSystem(s) => s@,
            TimeLoopError::Serialization(s) => s@,
            TimeLoopError::Decryption(s) => s@,
            TimeLoopError::SaltMismatch(s) => s@,
            TimeLoopError::Branch(s) => s@,
            TimeLoopError::Configuration(s) => s@,
        }
    }

    /// A one-line description: the kind's label followed by the detail.
    pub fn message(&self) -> (m: String)
        ensures
            m@ == self.label_view() + self.detail_view(),
    {
        let label: &str = match self {
            TimeLoopError::Storage(_) => "storage error: ",
            TimeLoopError::SessionNotFound(_) => "session not found: ",
            TimeLoopError::FileSystem(_) => "file system error: ",
            TimeLoopError::Serialization(_) => "serialization error: ",
            TimeLoopError::Decryption(_) => "decryption error: ",
            TimeLoopError::SaltMismatch(_) => "salt mismatch on import: ",
            TimeLoopError::Branch(_) => "branch error: ",
            TimeLoopError::Configuration(_) => "configuration error: ",
        };
        let mut m = String::from_str(label);
        m.append(self.detail().as_str());
        m
    }

    /// View of the label that `message` puts before the detail.
    pub open spec fn label_view(&self) -> Seq<char> {
        match self {
            TimeLoopError::Storage(_) => "storage error: "@,
            TimeLoopError::SessionNotFound(_) => "session not found: "@,
            TimeLoopError::FileSystem(_) => "file system error: "@,
            TimeLoopError::Serialization(_) => "serialization error: "@,
            TimeLoopError::Decryption(_) => "decryption error: "@,
            TimeLoopError::SaltMismatch(_) => "salt mismatch on import: "@,
            TimeLoopError::Branch(_) => "branch error: "@,
            TimeLoopError::Configuration(_) => "configuration error: "@,
        }
    }
}

} // verus!
