//! The storage handle.
//!
//! A handle owns the in-memory state, its configuration, and an explicit
//! image of its backing files: the snapshot, the active append-only log,
//! and the rotated archives.  Every operation updates the state and the
//! file image together, so crash consistency, encryption and the
//! compaction policy are all verified here; an unverified shell maps the
//! file image to a real file system, and for a handle bound to the
//! process-wide singleton, shares one handle behind a lock.

use vstd::prelude::*;
use vstd::string::StringExecFns;
use crate::codec::{
    FieldVal, FieldView, field_views, doc_views, enc_doc_bin, dec_doc_bin, encode_doc_bin,
    parse_doc_bin, push_record_bin, enc_record_bin, dec_record_bin, parse_record_bin,
};
use crate::text::{
    enc_doc_text, dec_doc_text, enc_record_text, dec_records_text, encode_doc_text,
    parse_doc_text,
};
use crate::log::{
    frame_bin, frame_wf, enc_log_bin, dec_log_bin, lemma_enc_log_bin_push, lemma_dec_enc_log_bin,
    append_record_bin, parse_log_bin, count_frames_bin, count_lines,
    count_log_records_bin, count_log_records_text,
};
use crate::records::{
    StateView, state_view, empty_state_view, lemma_state_view_wf, enc_event_record,
    snapshot_records, parse_snapshot_doc, lemma_parse_snapshot_roundtrip, state_to_doc,
    doc_to_state, event_record, parse_event_rec, parse_enc_event_rec,
    lemma_parse_event_record, parse_wrapper_doc, build_wrapper_doc, doc_to_wrapper,
    parse_bundle_doc, lemma_parse_bundle_roundtrip, bundle_to_doc, doc_to_bundle,
    fields_to_event, event_to_fields, session_views, branch_views,
};
use crate::state::{
    StoreState, event_views, events_of_session, upsert_event_seq, upsert_session_seq,
    upsert_branch_seq, find_session_seq, find_branch_seq, sessions_without,
    branches_without, events_without_session,
};
use crate::crypto::{
    derived_key_of, xchacha_open, aead_max_plaintext_len, derive_key, encrypt_bytes,
    try_decrypt, fresh_salt, wipe_key, wipe_bytes, now_millis, rotation_timestamp,
};
use crate::event::{Event, EventV};
use crate::session::Session;
use crate::branch::TimelineBranch;
use crate::error::TimeLoopError;
use crate::TlResult;
use crate::text::text_doc_ok;
use crate::codec::record_wf;

verus! {

/// The two interchangeable on-disk encodings.
#[derive(Clone, Copy, PartialEq, Eq, Structural)]
pub enum PersistenceFormat {
    /// Line-oriented ASCII records.
    Text,
    /// Length-prefixed little-endian records.
    Binary,
}

/// Cost parameters of the key-derivation function.
#[derive(Clone, Copy, PartialEq, Eq, Structural)]
pub struct Argon2Config {
    pub memory_kib: u32,
    pub iterations: u32,
    pub parallelism: u32,
}

impl Argon2Config {
    /// Parameters the key-derivation function accepts.
    pub open spec fn valid(self) -> bool {
        &&& self.memory_kib >= 8
        &&& self.iterations >= 1
        &&& 1 <= self.parallelism <= 0xFFFFFF
        &&& self.memory_kib >= 8 * self.parallelism
    }

    /// Whether the parameters are accepted by the key-derivation function.
    pub fn is_valid(&self) -> (r: bool)
        ensures
            r == self.valid(),
    {
        self.memory_kib >= 8 && self.iterations >= 1 && 1 <= self.parallelism
            && self.parallelism <= 0xFFFFFF && self.parallelism <= self.memory_kib / 8
            && self.memory_kib >= 8 * self.parallelism
    }
}

impl Default for Argon2Config {
    /// Tens-of-MiB memory cost, a few iterations, one lane.
    fn default() -> (r: Self)
        ensures
            r.memory_kib == 65536,
            r.iterations == 3,
            r.parallelism == 1,
            r.valid(),
    {
        Argon2Config { memory_kib: 65536, iterations: 3, parallelism: 1 }
    }
}

/// When mutations write the snapshot.
#[derive(Clone, Copy, PartialEq, Eq, Structural)]
pub enum AutosavePolicy {
    /// Save once writes pause for the given number of milliseconds.
    Debounce { debounce_ms: u64 },
    /// Save after a number of writes, or after a maximum delay.
    Coalescing { write_threshold: u32, max_delay_ms: u64 },
    /// Never save on mutation; only `flush` persists.
    Disabled,
}

/// Rotation and retention policy of the append-only log.
#[derive(Clone, Copy, PartialEq, Eq, Structural)]
pub struct CompactionPolicy {
    pub max_log_size_bytes: Option<u64>,
    pub max_events: Option<u64>,
    pub retention_count: u64,
    pub compaction_interval_secs: Option<u64>,
}

impl Default for CompactionPolicy {
    fn default() -> (r: Self)
        ensures
            r.max_log_size_bytes == Some(10485760u64),
            r.max_events == Some(100000u64),
            r.retention_count == 5u64,
            r.compaction_interval_secs == Some(3600u64),
    {
        CompactionPolicy {
            max_log_size_bytes: Some(10485760),
            max_events: Some(100000),
            retention_count: 5,
            compaction_interval_secs: Some(3600),
        }
    }
}

/// Process-wide defaults, owned by the embedding program and passed to
/// handles created without explicit settings.
#[derive(Clone, Copy, PartialEq, Eq, Structural)]
pub struct StorageConfig {
    pub format: PersistenceFormat,
    pub append_only: bool,
    pub compaction: CompactionPolicy,
    pub argon2: Argon2Config,
}

impl Default for StorageConfig {
    fn default() -> (r: Self)
        ensures
            r.format == PersistenceFormat::Text,
            !r.append_only,
            r.compaction == (CompactionPolicy {
                max_log_size_bytes: Some(10485760u64),
                max_events: Some(100000u64),
                retention_count: 5u64,
                compaction_interval_secs: Some(3600u64),
            }),
            r.argon2 == (Argon2Config { memory_kib: 65536, iterations: 3, parallelism: 1 }),
    {
        StorageConfig {
            format: PersistenceFormat::Text,
            append_only: false,
            compaction: CompactionPolicy::default(),
            argon2: Argon2Config::default(),
        }
    }
}

/// One rotated archive of the append-only log.
pub struct LogArchive {
    /// The archive's file name: the active log's name plus a rotation
    /// suffix with a UTC timestamp.
    pub name: String,
    /// The archived bytes.
    pub data: Vec<u8>,
}

/// The image of a handle's backing files.  An unverified shell reads this
/// image and mirrors it onto a real file system, and fills it from the
/// files when a handle is opened.  Archives are ordered oldest first.
pub struct StorageFiles {
    pub snapshot: Option<Vec<u8>>,
    pub log: Vec<u8>,
    pub archives: Vec<LogArchive>,
}

impl StorageFiles {
    /// No files yet.
    pub fn empty() -> (r: StorageFiles)
        ensures
            r.snapshot is None,
            r.log@.len() == 0,
            r.archives@.len() == 0,
    {
        StorageFiles { snapshot: None, log: Vec::new(), archives: Vec::new() }
    }
}

// ----- what a file image holds -----

/// What a byte string parses to as a document of the given encoding.
pub open spec fn doc_of_bytes(fmt: PersistenceFormat, b: Seq<u8>) -> Option<
    Seq<Seq<FieldView>>,
> {
    match fmt {
        PersistenceFormat::Binary => dec_doc_bin(b),
        PersistenceFormat::Text => dec_doc_text(b),
    }
}

/// What snapshot bytes hold: a plain snapshot document, or, under a key,
/// an encrypted wrapper whose decrypted payload is a snapshot document of
/// the same encoding.
pub open spec fn snapshot_state_of(
    fmt: PersistenceFormat,
    key: Option<Seq<u8>>,
    b: Seq<u8>,
) -> Option<StateView> {
    match key {
        None => match doc_of_bytes(fmt, b) {
            Some(d) => parse_snapshot_doc(d),
            None => None,
        },
        Some(k) => match doc_of_bytes(fmt, b) {
            Some(d) => match parse_wrapper_doc(d) {
                Some((salt, nonce, ct)) => if nonce.len() == 24 {
                    match xchacha_open(k, nonce, ct) {
                        Some(p) => match doc_of_bytes(fmt, p) {
                            Some(inner) => parse_snapshot_doc(inner),
                            None => None,
                        },
                        None => None,
                    }
                } else {
                    None
                },
                None => None,
            },
            None => None,
        },
    }
}

/// What the log bytes parse to as framed records.
pub open spec fn log_records_of(fmt: PersistenceFormat, b: Seq<u8>) -> Option<
    Seq<Seq<FieldView>>,
> {
    match fmt {
        PersistenceFormat::Binary => dec_log_bin(b, 0),
        PersistenceFormat::Text => dec_records_text(b, 0),
    }
}

/// The event one log record carries: a plain event record, or, under a
/// key, an encrypted record whose decrypted payload is one binary event
/// record.
pub open spec fn log_event_of(rec: Seq<FieldView>, key: Option<Seq<u8>>) -> Option<EventV> {
    match parse_event_rec(rec) {
        Some(ev) => Some(ev),
        None => match parse_enc_event_rec(rec) {
            Some((nonce, ct)) => match key {
                Some(k) => if nonce.len() == 24 {
                    match xchacha_open(k, nonce, ct) {
                        Some(p) => match dec_record_bin(p, 0) {
                            Some((r, e)) => if e == p.len() {
                                parse_event_rec(r)
                            } else {
                                None
                            },
                            None => None,
                        },
                        None => None,
                    }
                } else {
                    None
                },
                None => None,
            },
            None => None,
        },
    }
}

/// Insert-or-replace by id over event views: the meaning of replaying one
/// log record.
pub open spec fn upsert_event_view(es: Seq<EventV>, e: EventV) -> Seq<EventV>
    decreases es.len(),
{
    if es.len() == 0 {
        seq![e]
    } else if es[0].id == e.id {
        seq![e] + es.drop_first()
    } else {
        seq![es[0]] + upsert_event_view(es.drop_first(), e)
    }
}

/// Upserting values and upserting views agree.
pub proof fn lemma_upsert_event_views(s: Seq<Event>, e: Event)
    ensures
        event_views(upsert_event_seq(s, e)) == upsert_event_view(event_views(s), e@),
    decreases s.len(),
{
    reveal_with_fuel(upsert_event_view, 2);
    if s.len() == 0 {
        assert(event_views(upsert_event_seq(s, e)) =~= upsert_event_view(
            event_views(s),
            e@,
        ));
    } else {
        assert(event_views(s).drop_first() =~= event_views(s.drop_first()));
        if s[0].id@ == e.id@ {
            assert(event_views(upsert_event_seq(s, e)) =~= upsert_event_view(
                event_views(s),
                e@,
            ));
        } else {
            lemma_upsert_event_views(s.drop_first(), e);
            assert(event_views(upsert_event_seq(s, e)) =~= upsert_event_view(
                event_views(s),
                e@,
            ));
        }
    }
}

/// Replay framed log records over a base event sequence, under an optional
/// key.  A record that fails to parse or decrypt fails the whole replay.
pub open spec fn replay_events(
    recs: Seq<Seq<FieldView>>,
    key: Option<Seq<u8>>,
    base: Seq<EventV>,
) -> Option<Seq<EventV>>
    decreases recs.len(),
{
    if recs.len() == 0 {
        Some(base)
    } else {
        match log_event_of(recs[0], key) {
            Some(ev) => replay_events(recs.drop_first(), key, upsert_event_view(base, ev)),
            None => None,
        }
    }
}

/// Replaying one more record replays it last.
pub proof fn lemma_replay_events_push(
    recs: Seq<Seq<FieldView>>,
    r: Seq<FieldView>,
    key: Option<Seq<u8>>,
    base: Seq<EventV>,
)
    ensures
        replay_events(recs.push(r), key, base) == (match replay_events(recs, key, base) {
            Some(es) => match log_event_of(r, key) {
                Some(ev) => Some::<Seq<EventV>>(upsert_event_view(es, ev)),
                None => None::<Seq<EventV>>,
            },
            None => None::<Seq<EventV>>,
        }),
    decreases recs.len(),
{
    reveal_with_fuel(replay_events, 2);
    if recs.len() == 0 {
        assert(recs.push(r).drop_first() =~= Seq::<Seq<FieldView>>::empty());
        assert(recs.push(r)[0] == r);
    } else {
        assert(recs.push(r).drop_first() =~= recs.drop_first().push(r));
        assert(recs.push(r)[0] == recs[0]);
        match log_event_of(recs[0], key) {
            Some(ev) => {
                lemma_replay_events_push(
                    recs.drop_first(),
                    r,
                    key,
                    upsert_event_view(base, ev),
                );
            },
            None => {},
        }
    }
}

/// The key a handle holds, as a view.
pub open spec fn key_view(k: Option<[u8; 32]>) -> Option<Seq<u8>> {
    match k {
        Some(key) => Some(key@),
        None => None,
    }
}

/// What a file image holds when the snapshot is read under one key and
/// the log replayed under another: the snapshot's state with the log on
/// top.  A freshly encrypted handle over a plaintext file reads the
/// snapshot in the clear but replays its log under the new key.
pub open spec fn stored_state_with(
    fmt: PersistenceFormat,
    base_key: Option<Seq<u8>>,
    log_key: Option<Seq<u8>>,
    snapshot: Option<Seq<u8>>,
    log: Seq<u8>,
) -> Option<StateView> {
    let base = match snapshot {
        Some(b) => snapshot_state_of(fmt, base_key, b),
        None => Some(empty_state_view()),
    };
    match base {
        Some(bv) => match log_records_of(fmt, log) {
            Some(recs) => match replay_events(recs, log_key, bv.events) {
                Some(es) => Some(
                    StateView { events: es, sessions: bv.sessions, branches: bv.branches },
                ),
                None => None,
            },
            None => None,
        },
        None => None,
    }
}

/// What a whole file image holds: the snapshot's state with the log
/// replayed on top, all under one key.
pub open spec fn stored_state(
    fmt: PersistenceFormat,
    key: Option<Seq<u8>>,
    snapshot: Option<Seq<u8>>,
    log: Seq<u8>,
) -> Option<StateView> {
    stored_state_with(fmt, key, key, snapshot, log)
}

/// The log bytes a record list encodes to.
pub open spec fn log_bytes_of(fmt: PersistenceFormat, rs: Seq<Seq<FieldView>>) -> Seq<u8> {
    match fmt {
        PersistenceFormat::Binary => enc_log_bin(rs),
        PersistenceFormat::Text => crate::text::enc_records_text(rs),
    }
}

/// The plaintext snapshot bytes of a state view in the given encoding:
/// what the cipher is handed when the snapshot is written encrypted.
pub open spec fn snapshot_plain_of(fmt: PersistenceFormat, sv: StateView) -> Seq<u8> {
    match fmt {
        PersistenceFormat::Binary => enc_doc_bin(snapshot_records(sv)),
        PersistenceFormat::Text => enc_doc_text(snapshot_records(sv)),
    }
}

/// One framed log record in the given encoding.
pub open spec fn log_frame_of(fmt: PersistenceFormat, rec: Seq<FieldView>) -> Seq<u8> {
    match fmt {
        PersistenceFormat::Binary => frame_bin(rec),
        PersistenceFormat::Text => enc_record_text(rec),
    }
}

/// The storage handle: the state container, the configuration, and the
/// image of the backing files.
pub struct Storage {
    /// The in-memory state.
    pub state: StoreState,
    /// The image of the backing files.
    pub files: StorageFiles,
    /// Snapshot file path; a handle without one is bound to the
    /// process-wide singleton and persists through the shell's default
    /// location.
    pub persistence_path: Option<String>,
    /// Path of the append-only log, derived from the snapshot path.
    pub events_log_path: Option<String>,
    /// The on-disk encoding.
    pub persistence_format: PersistenceFormat,
    /// Whether mutations append log records instead of rewriting the
    /// snapshot.
    pub append_only: bool,
    /// The derived encryption key, when encryption is active.
    pub encryption_key: Option<[u8; 32]>,
    /// The salt the key was derived under.
    pub encryption_salt: Option<Vec<u8>>,
    /// Key-derivation cost parameters pinned at open.
    pub argon2_config: Option<Argon2Config>,
    /// Rotation threshold: active log size in bytes.
    pub max_log_size_bytes: Option<u64>,
    /// Rotation threshold: active log record count.
    pub max_events: Option<u64>,
    /// How many rotated archives to keep.
    pub retention_count: u64,
    /// Background compaction interval, used by the shell's thread.
    pub compaction_interval_secs: Option<u64>,
    /// When mutations persist.
    pub autosave_policy: Option<AutosavePolicy>,
    /// Time of the last mutation, milliseconds since the epoch.
    pub last_write_ms: Option<i64>,
    /// Mutations since the last save, for the coalescing policy.
    pub pending_writes: u32,
    /// Whether the file image reflects the in-memory state.
    pub persisted: bool,
    /// The records appended to the active log since it was last truncated.
    pub logged: Ghost<Seq<Seq<FieldView>>>,
}

impl Storage {
    /// The snapshot bytes as a view.
    pub open spec fn snapshot_view(self) -> Option<Seq<u8>> {
        match self.files.snapshot {
            Some(b) => Some(b@),
            None => None,
        }
    }

    /// The file image accounts for the state: the log bytes are exactly
    /// the appended records, each replayable, and snapshot plus log parse
    /// and replay to the in-memory state.
    pub open spec fn files_ok(self) -> bool {
        &&& self.files.log@ == log_bytes_of(self.persistence_format, self.logged@)
        &&& (self.persistence_format == PersistenceFormat::Text ==> text_doc_ok(self.logged@)
            && (forall|i: int|
            0 <= i < self.logged@.len() ==> record_wf(#[trigger] self.logged@[i])))
        &&& (self.persistence_format == PersistenceFormat::Binary ==> (forall|i: int|
            0 <= i < self.logged@.len() ==> frame_wf(#[trigger] self.logged@[i])))
        &&& stored_state(
            self.persistence_format,
            key_view(self.encryption_key),
            self.snapshot_view(),
            self.files.log@,
        ) == Some(state_view(self.state))
        &&& (self.encryption_key is Some ==> (self.files.snapshot matches Some(b)
            ==> (wrapper_of_snapshot(self.persistence_format, b@) matches Some(w)
            && (self.encryption_salt matches Some(salt) && w.0 == salt@))))
    }

    /// The handle invariant.
    pub open spec fn wf(self) -> bool {
        &&& self.state.wf()
        &&& (self.encryption_key is Some <==> self.encryption_salt is Some)
        &&& (self.encryption_salt matches Some(salt) ==> 8 <= salt@.len() <= 64)
        &&& (self.encryption_key is Some ==> (self.argon2_config matches Some(c)
            && c.valid()))
        &&& (!self.append_only ==> self.files.log@.len() == 0 && self.logged@.len() == 0)
        &&& (self.persisted ==> self.files_ok())
    }
}

/// Byte-for-byte equality.
fn bytes_eq(a: &Vec<u8>, b: &Vec<u8>) -> (r: bool)
    ensures
        r == (a@ == b@),
{
    if a.len() != b.len() {
        return false;
    }
    let n = a.len();
    let mut i: usize = 0;
    while i < n
        invariant
            i <= n,
            n == a@.len(),
            n == b@.len(),
            forall|k: int| 0 <= k < i ==> a@[k] == b@[k],
        decreases n - i,
    {
        if a[i] != b[i] {
            return false;
        }
        i = i + 1;
    }
    proof {
        assert(a@ =~= b@);
    }
    true
}

/// A verified byte-for-byte copy.
fn clone_bytes(v: &Vec<u8>) -> (r: Vec<u8>)
    ensures
        r@ == v@,
{
    let n = v.len();
    let mut r: Vec<u8> = Vec::new();
    let mut i: usize = 0;
    while i < n
        invariant
            i <= n,
            n == v@.len(),
            r@ == v@.take(i as int),
        decreases n - i,
    {
        r.push(v[i]);
        proof {
            assert(v@.take(i + 1) =~= v@.take(i as int).push(v@[i as int]));
        }
        i = i + 1;
    }
    proof {
        assert(v@.take(n as int) =~= v@);
    }
    r
}

/// Encode a state as a snapshot document in the given encoding.  The
/// output parses back to the state.
fn snapshot_doc_bytes(st: &StoreState, fmt: PersistenceFormat) -> (out: Vec<u8>)
    requires
        st.wf(),
    ensures
        out@ == snapshot_plain_of(fmt, state_view(*st)),
        doc_of_bytes(fmt, out@) == Some(snapshot_records(state_view(*st))),
        snapshot_state_of(fmt, None, out@) == Some(state_view(*st)),
{
    let d = state_to_doc(st);
    let out = match fmt {
        PersistenceFormat::Binary => encode_doc_bin(&d),
        PersistenceFormat::Text => encode_doc_text(&d),
    };
    proof {
        lemma_state_view_wf(*st);
        lemma_parse_snapshot_roundtrip(state_view(*st));
    }
    out
}

impl Storage {
    /// Write a full snapshot of the in-memory state into the file image
    /// and truncate the active log, whose effect the snapshot now carries.
    /// Fails precisely when the handle is encrypted and the plaintext
    /// snapshot is long enough for the cipher to refuse; the file image is
    /// then unchanged.
    fn write_snapshot_now(&mut self) -> (r: TlResult<()>)
        requires
            old(self).wf(),
        ensures
            r is Err <==> (old(self).encryption_key is Some && snapshot_plain_of(
                old(self).persistence_format,
                state_view(old(self).state),
            ).len() >= aead_max_plaintext_len()),
            final(self).wf(),
            final(self).state == old(self).state,
            final(self).persistence_format == old(self).persistence_format,
            final(self).append_only == old(self).append_only,
            final(self).encryption_key == old(self).encryption_key,
            final(self).encryption_salt == old(self).encryption_salt,
            final(self).argon2_config == old(self).argon2_config,
            final(self).persistence_path == old(self).persistence_path,
            final(self).events_log_path == old(self).events_log_path,
            final(self).max_log_size_bytes == old(self).max_log_size_bytes,
            final(self).max_events == old(self).max_events,
            final(self).retention_count == old(self).retention_count,
            final(self).compaction_interval_secs == old(self).compaction_interval_secs,
            final(self).autosave_policy == old(self).autosave_policy,
            final(self).files.archives == old(self).files.archives,
            match r {
                Ok(_) => final(self).persisted && final(self).files.log@.len() == 0
                    && final(self).logged@.len() == 0,
                Err(e) => final(self).files == old(self).files && final(self).persisted
                    == old(self).persisted && final(self).logged == old(self).logged
                    && e is Storage,
            },
    {
        let plain = snapshot_doc_bytes(&self.state, self.persistence_format);
        match &self.encryption_key {
            Some(key) => {
                let salt = match &self.encryption_salt {
                    Some(sv) => clone_bytes(sv),
                    None => {
                        proof {
                            assert(false);
                        }
                        return Err(
                            TimeLoopError::Storage(
                                String::from_str("missing salt for encrypted storage"),
                            ),
                        );
                    },
                };
                match encrypt_bytes(key, plain.as_slice()) {
                    Some((nonce, ct)) => {
                        let wdoc = build_wrapper_doc(salt, nonce, ct);
                        let out = match self.persistence_format {
                            PersistenceFormat::Binary => encode_doc_bin(&wdoc),
                            PersistenceFormat::Text => encode_doc_text(&wdoc),
                        };
                        self.files.snapshot = Some(out);
                        self.files.log = Vec::new();
                        proof {
                            self.logged@ = Seq::<Seq<FieldView>>::empty();
                        }
                        self.persisted = true;
                        proof {
                            assert(self.files.log@ =~= log_bytes_of(
                                self.persistence_format,
                                self.logged@,
                            ));
                            assert(replay_events(
                                self.logged@,
                                key_view(self.encryption_key),
                                state_view(self.state).events,
                            ) == Some(state_view(self.state).events));
                            assert(stored_state(
                                self.persistence_format,
                                key_view(self.encryption_key),
                                self.snapshot_view(),
                                self.files.log@,
                            ) == Some(state_view(self.state)));
                        }
                        Ok(())
                    },
                    None => {
                        Err(
                            TimeLoopError::Storage(
                                String::from_str("encryption failed"),
                            ),
                        )
                    },
                }
            },
            None => {
                self.files.snapshot = Some(plain);
                self.files.log = Vec::new();
                proof {
                    self.logged@ = Seq::<Seq<FieldView>>::empty();
                }
                self.persisted = true;
                proof {
                    assert(self.files.log@ =~= log_bytes_of(
                        self.persistence_format,
                        self.logged@,
                    ));
                    assert(replay_events(
                        self.logged@,
                        key_view(self.encryption_key),
                        state_view(self.state).events,
                    ) == Some(state_view(self.state).events));
                    assert(stored_state(
                        self.persistence_format,
                        key_view(self.encryption_key),
                        self.snapshot_view(),
                        self.files.log@,
                    ) == Some(state_view(self.state)));
                }
                Ok(())
            },
        }
    }
}

/// The event one framed log record carries, under the handle's key.
fn log_record_event(rec: &Vec<FieldVal>, key: &Option<[u8; 32]>) -> (r: Option<Event>)
    ensures
        match (r, log_event_of(field_views(rec@), key_view(*key))) {
            (Some(e), Some(ev)) => e@ == ev,
            (None, None) => true,
            _ => false,
        },
{
    match fields_to_event(rec) {
        Some(e) => Some(e),
        None => {
            proof {
                assert(forall|k: int|
                    0 <= k < rec@.len() ==> #[trigger] field_views(rec@)[k] == rec@[k]@);
            }
            if rec.len() != 3 {
                return None;
            }
            let tag: u64 = match &rec[0] {
                FieldVal::U(x) => *x,
                _ => {
                    return None;
                },
            };
            if tag != 5 {
                return None;
            }
            let nonce = match &rec[1] {
                FieldVal::B(v) => v,
                _ => {
                    return None;
                },
            };
            let ct = match &rec[2] {
                FieldVal::B(v) => v,
                _ => {
                    return None;
                },
            };
            proof {
                assert(parse_enc_event_rec(field_views(rec@)) == Some(
                    (nonce@, ct@),
                ));
            }
            match key {
                Some(k) => {
                    if nonce.len() != 24 {
                        return None;
                    }
                    match try_decrypt(k, nonce.as_slice(), ct.as_slice()) {
                        Some(p) => {
                            match parse_record_bin(p.as_slice(), 0) {
                                Some((inner, e)) => {
                                    if e != p.len() {
                                        return None;
                                    }
                                    fields_to_event(&inner)
                                },
                                None => None,
                            }
                        },
                        None => None,
                    }
                },
                None => None,
            }
        },
    }
}

impl Storage {
    /// Replay framed log records into the state, as `store_event` would.
    /// Fails on the first record that cannot be read.
    fn replay_log_records(&mut self, recs: &Vec<Vec<FieldVal>>) -> (r: TlResult<()>)
        requires
            old(self).wf(),
            !old(self).persisted,
        ensures
            final(self).wf(),
            final(self).state.sessions@ == old(self).state.sessions@,
            final(self).state.branches@ == old(self).state.branches@,
            final(self).files == old(self).files,
            final(self).persisted == old(self).persisted,
            final(self).logged == old(self).logged,
            final(self).encryption_key == old(self).encryption_key,
            final(self).encryption_salt == old(self).encryption_salt,
            final(self).argon2_config == old(self).argon2_config,
            final(self).persistence_format == old(self).persistence_format,
            final(self).append_only == old(self).append_only,
            final(self).persistence_path == old(self).persistence_path,
            final(self).events_log_path == old(self).events_log_path,
            final(self).max_log_size_bytes == old(self).max_log_size_bytes,
            final(self).max_events == old(self).max_events,
            final(self).retention_count == old(self).retention_count,
            final(self).compaction_interval_secs == old(self).compaction_interval_secs,
            final(self).autosave_policy == old(self).autosave_policy,
            final(self).last_write_ms == old(self).last_write_ms,
            final(self).pending_writes == old(self).pending_writes,
            match (
                r,
                replay_events(
                    doc_views(recs@),
                    key_view(old(self).encryption_key),
                    event_views(old(self).state.events@),
                ),
            ) {
                (Ok(_), Some(es)) => event_views(final(self).state.events@) == es,
                (Err(e), None) => e is Serialization,
                _ => false,
            },
    {
        let n = recs.len();
        let mut i: usize = 0;
        proof {
            assert(doc_views(recs@).skip(0) =~= doc_views(recs@));
        }
        while i < n
            invariant
                i <= n,
                n == recs@.len(),
                self.wf(),
                !self.persisted,
                self.state.sessions@ == old(self).state.sessions@,
                self.state.branches@ == old(self).state.branches@,
                self.files == old(self).files,
                self.persisted == old(self).persisted,
                self.logged == old(self).logged,
                self.encryption_key == old(self).encryption_key,
                self.encryption_salt == old(self).encryption_salt,
                self.argon2_config == old(self).argon2_config,
                self.persistence_format == old(self).persistence_format,
                self.append_only == old(self).append_only,
                self.persistence_path == old(self).persistence_path,
                self.events_log_path == old(self).events_log_path,
                self.max_log_size_bytes == old(self).max_log_size_bytes,
                self.max_events == old(self).max_events,
                self.retention_count == old(self).retention_count,
                self.compaction_interval_secs == old(self).compaction_interval_secs,
                self.autosave_policy == old(self).autosave_policy,
                self.last_write_ms == old(self).last_write_ms,
                self.pending_writes == old(self).pending_writes,
                replay_events(
                    doc_views(recs@),
                    key_view(old(self).encryption_key),
                    event_views(old(self).state.events@),
                ) == replay_events(
                    doc_views(recs@).skip(i as int),
                    key_view(old(self).encryption_key),
                    event_views(self.state.events@),
                ),
            decreases n - i,
        {
            proof {
                assert(doc_views(recs@).skip(i as int)[0] == field_views(recs@[i as int]@));
                assert(doc_views(recs@).skip(i as int).drop_first() =~= doc_views(
                    recs@,
                ).skip(i + 1));
            }
            match log_record_event(&recs[i], &self.encryption_key) {
                Some(ev) => {
                    let ghost pre = self.state.events@;
                    self.state.upsert_event(ev);
                    proof {
                        lemma_upsert_event_views(pre, ev);
                    }
                    i = i + 1;
                },
                None => {
                    proof {
                        assert(replay_events(
                            doc_views(recs@).skip(i as int),
                            key_view(old(self).encryption_key),
                            event_views(self.state.events@),
                        ) is None);
                    }
                    return Err(
                        TimeLoopError::Serialization(
                            String::from_str("unreadable append-only log record"),
                        ),
                    );
                },
            }
        }
        proof {
            assert(doc_views(recs@).skip(n as int) =~= Seq::<Seq<FieldView>>::empty());
        }
        Ok(())
    }
}

/// The append-only log path that belongs to a snapshot path: a sibling
/// file with a per-encoding suffix.
pub fn events_log_path_for(path: &String, fmt: PersistenceFormat) -> (r: String)
    ensures
        fmt == PersistenceFormat::Text ==> r@ == path@ + ".events.tlog"@,
        fmt == PersistenceFormat::Binary ==> r@ == path@ + ".events.blog"@,
{
    let mut r = path.clone();
    match fmt {
        PersistenceFormat::Text => {
            r.append(".events.tlog");
        },
        PersistenceFormat::Binary => {
            r.append(".events.blog");
        },
    }
    r
}

impl Storage {
    /// A fresh handle with an empty state, adopting the given process-wide
    /// defaults.  A handle built this way and left without a path is the
    /// process-wide singleton's storage; the embedding program shares it
    /// behind a lock and persists it at its default location.
    pub fn new(config: &StorageConfig) -> (r: Storage)
        ensures
            r.wf(),
            !r.persisted,
            r.state.events@.len() == 0,
            r.state.sessions@.len() == 0,
            r.state.branches@.len() == 0,
            r.persistence_path is None,
            r.encryption_key is None,
            r.persistence_format == config.format,
            r.append_only == config.append_only,
    {
        Storage {
            state: StoreState::new(),
            files: StorageFiles::empty(),
            persistence_path: None,
            events_log_path: None,
            persistence_format: config.format,
            append_only: config.append_only,
            encryption_key: None,
            encryption_salt: None,
            argon2_config: None,
            max_log_size_bytes: config.compaction.max_log_size_bytes,
            max_events: config.compaction.max_events,
            retention_count: config.compaction.retention_count,
            compaction_interval_secs: config.compaction.compaction_interval_secs,
            autosave_policy: None,
            last_write_ms: None,
            pending_writes: 0,
            persisted: false,
            logged: Ghost(Seq::empty()),
        }
    }

    /// Open a plaintext, path-bound handle over the given file image: load
    /// the snapshot if one exists, and, when append-only logging is
    /// active, replay the log on top.  Fails with a serialization error
    /// precisely when snapshot or log cannot be read back.
    pub fn open_with_format(
        path: &String,
        format: PersistenceFormat,
        config: &StorageConfig,
        files: StorageFiles,
    ) -> (r: TlResult<Storage>)
        ensures
            ({
                let snap = match files.snapshot {
                    Some(b) => Some(b@),
                    None => None,
                };
                let log = if config.append_only {
                    files.log@
                } else {
                    Seq::<u8>::empty()
                };
                match r {
                    Ok(st) => {
                        &&& st.wf()
                        &&& !st.persisted
                        &&& (st.persistence_path matches Some(p) && p@ == path@)
                        &&& st.persistence_format == format
                        &&& st.append_only == config.append_only
                        &&& st.encryption_key is None
                        &&& Some(state_view(st.state)) == stored_state(format, None, snap, log)
                        &&& st.files.snapshot == files.snapshot
                        &&& st.files.archives == files.archives
                    },
                    Err(e) => e is Serialization && stored_state(format, None, snap, log)
                        is None,
                }
            }),
    {
        let mut st = Storage::new(config);
        st.persistence_format = format;
        st.append_only = config.append_only;
        st.persistence_path = Some(path.clone());
        st.events_log_path = Some(events_log_path_for(path, format));
        let StorageFiles { snapshot, log, archives } = files;
        match &snapshot {
            Some(b) => {
                let doc = match format {
                    PersistenceFormat::Binary => parse_doc_bin(b.as_slice()),
                    PersistenceFormat::Text => parse_doc_text(b.as_slice()),
                };
                match doc {
                    Some(d) => {
                        match doc_to_state(&d) {
                            Some(loaded) => {
                                st.state = loaded;
                            },
                            None => {
                                return Err(
                                    TimeLoopError::Serialization(
                                        String::from_str("unreadable snapshot document"),
                                    ),
                                );
                            },
                        }
                    },
                    None => {
                        return Err(
                            TimeLoopError::Serialization(
                                String::from_str("unreadable snapshot file"),
                            ),
                        );
                    },
                }
            },
            None => {
                proof {
                    assert(event_views(st.state.events@) =~= Seq::<EventV>::empty());
                    assert(session_views(st.state.sessions@) =~= Seq::<
                        crate::session::SessionV,
                    >::empty());
                    assert(branch_views(st.state.branches@) =~= Seq::<
                        crate::branch::TimelineBranchV,
                    >::empty());
                    assert(state_view(st.state) == empty_state_view());
                }
            },
        }
        let kept_log = if config.append_only {
            log
        } else {
            Vec::new()
        };
        st.files = StorageFiles { snapshot, log: kept_log, archives };
        if config.append_only {
            let recs = match format {
                PersistenceFormat::Binary => parse_log_bin(st.files.log.as_slice()),
                PersistenceFormat::Text => crate::text::parse_log_text(
                    st.files.log.as_slice(),
                ),
            };
            match recs {
                Some(rv) => {
                    match st.replay_log_records(&rv) {
                        Ok(_) => {},
                        Err(e) => {
                            return Err(e);
                        },
                    }
                },
                None => {
                    return Err(
                        TimeLoopError::Serialization(
                            String::from_str("unreadable append-only log"),
                        ),
                    );
                },
            }
        }
        proof {
            let key = None::<Seq<u8>>;
            let snap = match st.files.snapshot {
                Some(ref b) => Some(b@),
                None => None,
            };
            let logv = if config.append_only {
                st.files.log@
            } else {
                Seq::<u8>::empty()
            };
            assert(log_records_of(format, Seq::<u8>::empty()) == Some(
                Seq::<Seq<FieldView>>::empty(),
            ));
            if !config.append_only {
                assert(replay_events(
                    Seq::<Seq<FieldView>>::empty(),
                    key,
                    event_views(st.state.events@),
                ) == Some(event_views(st.state.events@)));
            }
            assert(state_view(st.state) == StateView {
                events: event_views(st.state.events@),
                sessions: session_views(st.state.sessions@),
                branches: branch_views(st.state.branches@),
            });
            assert(Some(state_view(st.state)) == stored_state(format, None, snap, logv));
        }
        Ok(st)
    }
}

/// What snapshot bytes hold when read as an encrypted wrapper document.
pub open spec fn wrapper_of_snapshot(fmt: PersistenceFormat, b: Seq<u8>) -> Option<(
    Seq<u8>,
    Seq<u8>,
    Seq<u8>,
)> {
    match doc_of_bytes(fmt, b) {
        Some(d) => parse_wrapper_doc(d),
        None => None,
    }
}

/// Read snapshot bytes as an encrypted wrapper document.
fn read_wrapper_doc(fmt: PersistenceFormat, b: &Vec<u8>) -> (r: Option<(
    Vec<u8>,
    Vec<u8>,
    Vec<u8>,
)>)
    ensures
        match (r, wrapper_of_snapshot(fmt, b@)) {
            (Some((salt, nonce, ct)), Some((sv, nv, cv))) => salt@ == sv && nonce@ == nv
                && ct@ == cv,
            (None, None) => true,
            _ => false,
        },
{
    let doc = match fmt {
        PersistenceFormat::Binary => parse_doc_bin(b.as_slice()),
        PersistenceFormat::Text => parse_doc_text(b.as_slice()),
    };
    match doc {
        Some(d) => doc_to_wrapper(&d),
        None => None,
    }
}

/// Decrypt an encrypted snapshot payload under a given key and rebuild
/// the state.  Fails with a decryption error precisely when the nonce is
/// malformed or the tag does not check, and with a serialization error
/// precisely when the decrypted payload is not a snapshot document.
pub fn load_encrypted_state(
    key: &[u8; 32],
    nonce: &Vec<u8>,
    ct: &Vec<u8>,
    fmt: PersistenceFormat,
) -> (r: TlResult<StoreState>)
    ensures
        match r {
            Ok(st) => {
                &&& st.wf()
                &&& nonce@.len() == 24
                &&& (xchacha_open(key@, nonce@, ct@) matches Some(p) && (doc_of_bytes(
                    fmt,
                    p,
                ) matches Some(d) && parse_snapshot_doc(d) == Some(state_view(st))))
            },
            Err(e) => {
                &&& (e is Decryption <==> (nonce@.len() != 24 || xchacha_open(
                    key@,
                    nonce@,
                    ct@,
                ) is None))
                &&& (e is Decryption || e is Serialization)
            },
        },
        nonce@.len() == 24 && (xchacha_open(key@, nonce@, ct@) matches Some(p) && (
        doc_of_bytes(fmt, p) matches Some(d) && parse_snapshot_doc(d) is Some)) ==> r
            is Ok,
{
    if nonce.len() != 24 {
        return Err(
            TimeLoopError::Decryption(String::from_str("malformed nonce")),
        );
    }
    match try_decrypt(key, nonce.as_slice(), ct.as_slice()) {
        Some(p) => {
            let doc = match fmt {
                PersistenceFormat::Binary => parse_doc_bin(p.as_slice()),
                PersistenceFormat::Text => parse_doc_text(p.as_slice()),
            };
            match doc {
                Some(d) => {
                    match doc_to_state(&d) {
                        Some(st) => Ok(st),
                        None => Err(
                            TimeLoopError::Serialization(
                                String::from_str("decrypted payload is not a snapshot"),
                            ),
                        ),
                    }
                },
                None => Err(
                    TimeLoopError::Serialization(
                        String::from_str("decrypted payload is not a document"),
                    ),
                ),
            }
        },
        None => Err(
            TimeLoopError::Decryption(
                String::from_str("invalid passphrase or corrupted file"),
            ),
        ),
    }
}

impl Storage {
    /// Open or create a path-bound encrypted handle.  An existing file
    /// that reads as an encrypted wrapper is decrypted under the key
    /// derived from the passphrase and the recorded salt — a wrong
    /// passphrase or corrupted wrapper is a decryption error; a file that
    /// does not read as a wrapper is loaded as a plaintext snapshot and
    /// a fresh salt is generated; a missing file starts empty with a
    /// fresh salt.
    pub fn with_encryption_opts(
        path: &String,
        passphrase: &str,
        params: &Argon2Config,
        format: PersistenceFormat,
        config: &StorageConfig,
        files: StorageFiles,
    ) -> (r: TlResult<Storage>)
        requires
            params.valid(),
            passphrase@.len() <= 0x3FFFFFFF,
        ensures
            match r {
                Ok(st) => {
                    &&& st.wf()
                    &&& !st.persisted
                    &&& (st.persistence_path matches Some(p) && p@ == path@)
                    &&& st.persistence_format == format
                    &&& st.append_only == config.append_only
                    &&& st.argon2_config == Some(*params)
                    &&& (st.encryption_salt matches Some(s) && (st.encryption_key
                        matches Some(k) && k@ == derived_key_of(
                        passphrase@,
                        s@,
                        params.memory_kib,
                        params.iterations,
                        params.parallelism,
                    )))
                    &&& (match files.snapshot {
                        Some(b) => match wrapper_of_snapshot(format, b@) {
                            Some((wsalt, wnonce, wct)) => {
                                &&& (st.encryption_salt matches Some(s) && s@ == wsalt)
                                &&& (st.encryption_key matches Some(k) && Some(
                                    state_view(st.state),
                                ) == stored_state(
                                    format,
                                    Some(k@),
                                    Some(b@),
                                    if config.append_only {
                                        files.log@
                                    } else {
                                        Seq::<u8>::empty()
                                    },
                                ))
                            },
                            None => {
                                &&& (st.encryption_key matches Some(k) && Some(
                                    state_view(st.state),
                                ) == stored_state_with(
                                    format,
                                    None,
                                    Some(k@),
                                    Some(b@),
                                    if config.append_only {
                                        files.log@
                                    } else {
                                        Seq::<u8>::empty()
                                    },
                                ))
                                &&& (st.encryption_salt matches Some(s) && s@.len() == 16)
                            },
                        },
                        None => (st.encryption_key matches Some(k) && Some(
                            state_view(st.state),
                        ) == stored_state_with(
                            format,
                            None,
                            Some(k@),
                            None,
                            if config.append_only {
                                files.log@
                            } else {
                                Seq::<u8>::empty()
                            },
                        )) && (st.encryption_salt matches Some(s) && s@.len() == 16),
                    })
                },
                Err(e) => {
                    &&& (e is Decryption ==> (files.snapshot matches Some(b)
                        && (wrapper_of_snapshot(format, b@) matches Some((wsalt, wnonce, wct))
                        && (wsalt.len() < 8 || wsalt.len() > 64 || wnonce.len() != 24
                        || xchacha_open(
                        derived_key_of(
                            passphrase@,
                            wsalt,
                            params.memory_kib,
                            params.iterations,
                            params.parallelism,
                        ),
                        wnonce,
                        wct,
                    ) is None))))
                    &&& (e is Decryption || e is Serialization || e is Storage)
                },
            },
    {
        let mut st = Storage::new(config);
        st.persistence_format = format;
        st.append_only = config.append_only;
        st.persistence_path = Some(path.clone());
        st.events_log_path = Some(events_log_path_for(path, format));
        st.argon2_config = Some(*params);
        let StorageFiles { snapshot, log, archives } = files;
        match &snapshot {
            Some(b) => {
                match read_wrapper_doc(format, b) {
                    Some((wsalt, wnonce, wct)) => {
                        if wsalt.len() < 8 || wsalt.len() > 64 {
                            return Err(
                                TimeLoopError::Decryption(
                                    String::from_str("malformed salt"),
                                ),
                            );
                        }
                        let key = match derive_key(
                            passphrase,
                            wsalt.as_slice(),
                            params.memory_kib,
                            params.iterations,
                            params.parallelism,
                        ) {
                            Some(k) => k,
                            None => {
                                return Err(
                                    TimeLoopError::Storage(
                                        String::from_str("key derivation failed"),
                                    ),
                                );
                            },
                        };
                        match load_encrypted_state(&key, &wnonce, &wct, format) {
                            Ok(loaded) => {
                                st.state = loaded;
                                st.encryption_key = Some(key);
                                st.encryption_salt = Some(wsalt);
                            },
                            Err(e) => {
                                return Err(e);
                            },
                        }
                    },
                    None => {
                        let doc = match format {
                            PersistenceFormat::Binary => parse_doc_bin(b.as_slice()),
                            PersistenceFormat::Text => parse_doc_text(b.as_slice()),
                        };
                        match doc {
                            Some(d) => {
                                match doc_to_state(&d) {
                                    Some(loaded) => {
                                        st.state = loaded;
                                    },
                                    None => {
                                        return Err(
                                            TimeLoopError::Serialization(
                                                String::from_str(
                                                    "unreadable snapshot document",
                                                ),
                                            ),
                                        );
                                    },
                                }
                            },
                            None => {
                                return Err(
                                    TimeLoopError::Serialization(
                                        String::from_str("unreadable snapshot file"),
                                    ),
                                );
                            },
                        }
                        let salt = fresh_salt();
                        let key = match derive_key(
                            passphrase,
                            salt.as_slice(),
                            params.memory_kib,
                            params.iterations,
                            params.parallelism,
                        ) {
                            Some(k) => k,
                            None => {
                                return Err(
                                    TimeLoopError::Storage(
                                        String::from_str("key derivation failed"),
                                    ),
                                );
                            },
                        };
                        st.encryption_key = Some(key);
                        st.encryption_salt = Some(salt);
                    },
                }
            },
            None => {
                let salt = fresh_salt();
                let key = match derive_key(
                    passphrase,
                    salt.as_slice(),
                    params.memory_kib,
                    params.iterations,
                    params.parallelism,
                ) {
                    Some(k) => k,
                    None => {
                        return Err(
                            TimeLoopError::Storage(
                                String::from_str("key derivation failed"),
                            ),
                        );
                    },
                };
                st.encryption_key = Some(key);
                st.encryption_salt = Some(salt);
                proof {
                    assert(event_views(st.state.events@) =~= Seq::<EventV>::empty());
                    assert(session_views(st.state.sessions@) =~= Seq::<
                        crate::session::SessionV,
                    >::empty());
                    assert(branch_views(st.state.branches@) =~= Seq::<
                        crate::branch::TimelineBranchV,
                    >::empty());
                    assert(state_view(st.state) == empty_state_view());
                }
            },
        }
        st.files = StorageFiles { snapshot, log: Vec::new(), archives };
        let kept_log: Vec<u8> = if config.append_only {
            log
        } else {
            Vec::new()
        };
        st.files.log = kept_log;
        if config.append_only {
            let recs = match format {
                PersistenceFormat::Binary => parse_log_bin(st.files.log.as_slice()),
                PersistenceFormat::Text => crate::text::parse_log_text(
                    st.files.log.as_slice(),
                ),
            };
            match recs {
                Some(rv) => {
                    match st.replay_log_records(&rv) {
                        Ok(_) => {},
                        Err(e) => {
                            return Err(e);
                        },
                    }
                },
                None => {
                    return Err(
                        TimeLoopError::Serialization(
                            String::from_str("unreadable append-only log"),
                        ),
                    );
                },
            }
        }
        proof {
            assert(log_records_of(format, Seq::<u8>::empty()) == Some(
                Seq::<Seq<FieldView>>::empty(),
            ));
            if !config.append_only {
                assert(replay_events(
                    Seq::<Seq<FieldView>>::empty(),
                    key_view(st.encryption_key),
                    event_views(st.state.events@),
                ) == Some(event_views(st.state.events@)));
                assert(replay_events(
                    Seq::<Seq<FieldView>>::empty(),
                    None,
                    event_views(st.state.events@),
                ) == Some(event_views(st.state.events@)));
            }
            assert(state_view(st.state) == StateView {
                events: event_views(st.state.events@),
                sessions: session_views(st.state.sessions@),
                branches: branch_views(st.state.branches@),
            });
        }
        Ok(st)
    }
}

impl Storage {
    /// Persist the in-memory state as the current mode directs: rewrite
    /// the snapshot, or leave it to the autosave policy.
    fn persist_full_or_autosave(&mut self) -> (r: TlResult<()>)
        requires
            old(self).wf(),
        ensures
            final(self).wf(),
            final(self).state == old(self).state,
            final(self).persistence_format == old(self).persistence_format,
            final(self).append_only == old(self).append_only,
            final(self).encryption_key == old(self).encryption_key,
            final(self).encryption_salt == old(self).encryption_salt,
            final(self).argon2_config == old(self).argon2_config,
            final(self).persistence_path == old(self).persistence_path,
            final(self).events_log_path == old(self).events_log_path,
            final(self).max_log_size_bytes == old(self).max_log_size_bytes,
            final(self).max_events == old(self).max_events,
            final(self).retention_count == old(self).retention_count,
            final(self).compaction_interval_secs == old(self).compaction_interval_secs,
            final(self).autosave_policy == old(self).autosave_policy,
            final(self).files.archives == old(self).files.archives,
            old(self).autosave_policy is None && r is Ok ==> final(self).persisted,
            r matches Err(e) ==> e is Storage && old(self).encryption_key is Some
                && snapshot_plain_of(
                old(self).persistence_format,
                state_view(old(self).state),
            ).len() >= aead_max_plaintext_len(),
    {
        let now = now_millis();
        match &self.autosave_policy {
            None => {
                let r = self.write_snapshot_now();
                self.last_write_ms = Some(now);
                r
            },
            Some(AutosavePolicy::Disabled) => {
                self.last_write_ms = Some(now);
                Ok(())
            },
            Some(AutosavePolicy::Debounce { debounce_ms }) => {
                let ms = *debounce_ms;
                let due: bool = match self.last_write_ms {
                    Some(lw) => {
                        match now.checked_sub(lw) {
                            Some(d) => d >= 0 && (d as u64) >= ms,
                            None => true,
                        }
                    },
                    None => true,
                };
                let r = if due {
                    self.write_snapshot_now()
                } else {
                    Ok(())
                };
                self.last_write_ms = Some(now);
                r
            },
            Some(AutosavePolicy::Coalescing { write_threshold, max_delay_ms }) => {
                let threshold = *write_threshold;
                let max_delay = *max_delay_ms;
                if self.pending_writes < u32::MAX {
                    self.pending_writes = self.pending_writes + 1;
                }
                let delay_due: bool = match self.last_write_ms {
                    Some(lw) => {
                        match now.checked_sub(lw) {
                            Some(d) => d >= 0 && (d as u64) >= max_delay,
                            None => true,
                        }
                    },
                    None => true,
                };
                let r = if self.pending_writes >= threshold || delay_due {
                    let r0 = self.write_snapshot_now();
                    if r0.is_ok() {
                        self.pending_writes = 0;
                    }
                    r0
                } else {
                    Ok(())
                };
                self.last_write_ms = Some(now);
                r
            },
        }
    }

    /// Store (insert or replace by id) one event.  Under append-only
    /// logging one record is appended to the active log; otherwise the
    /// snapshot is rewritten, subject to the autosave policy.  The
    /// in-memory state is updated even when persistence fails, and the
    /// handle then reports itself unpersisted.
    #[verifier::rlimit(60)]
    pub fn store_event(&mut self, event: &Event) -> (r: TlResult<()>)
        requires
            old(self).wf(),
        ensures
            final(self).wf(),
            event_views(final(self).state.events@) == upsert_event_view(
                event_views(old(self).state.events@),
                event@,
            ),
            final(self).state.sessions@ == old(self).state.sessions@,
            final(self).state.branches@ == old(self).state.branches@,
            final(self).persistence_format == old(self).persistence_format,
            final(self).append_only == old(self).append_only,
            final(self).encryption_key == old(self).encryption_key,
            final(self).encryption_salt == old(self).encryption_salt,
            final(self).argon2_config == old(self).argon2_config,
            final(self).persistence_path == old(self).persistence_path,
            final(self).events_log_path == old(self).events_log_path,
            final(self).autosave_policy == old(self).autosave_policy,
            final(self).files.archives == old(self).files.archives,
            old(self).persisted && old(self).append_only && r is Ok ==> final(self).persisted,
            old(self).autosave_policy is None && r is Ok ==> final(self).persisted,
            r matches Err(e) ==> e is Storage && old(self).encryption_key is Some && (
            enc_record_bin(event_record(event@)).len() >= aead_max_plaintext_len()
                || snapshot_plain_of(
                old(self).persistence_format,
                state_view(final(self).state),
            ).len() >= aead_max_plaintext_len()),
            old(self).persisted && old(self).append_only && old(self).encryption_key
                is None && (old(self).persistence_format == PersistenceFormat::Binary
                ==> enc_record_bin(event_record(event@)).len() <= u32::MAX) ==> r is Ok
                && final(self).files.snapshot == old(self).files.snapshot
                && final(self).files.log@ == old(self).files.log@ + log_frame_of(
                old(self).persistence_format,
                event_record(event@),
            ),
            old(self).persisted && old(self).append_only && old(self).encryption_key
                is Some && r is Ok && final(self).files.log@.len() > old(
                self,
            ).files.log@.len() ==> final(self).files.snapshot == old(self).files.snapshot
                && (exists|nonce: Seq<u8>, ct: Seq<u8>|
                {
                    &&& final(self).files.log@ == old(self).files.log@ + #[trigger] log_frame_of(
                        old(self).persistence_format,
                        enc_event_record(nonce, ct),
                    )
                    &&& nonce.len() == 24
                    &&& (old(self).encryption_key matches Some(k) && xchacha_open(
                        k@,
                        nonce,
                        ct,
                    ) == Some(enc_record_bin(event_record(event@))))
                }),
    {
        let ghost pre = *self;
        let was_persisted = self.persisted;
        self.persisted = false;
        let c = event.clone();
        let ghost pre_events = self.state.events@;
        self.state.upsert_event(c);
        proof {
            lemma_upsert_event_views(pre_events, c);
        }
        if self.append_only && was_persisted {
            let rec = event_to_fields(event);
            let ghost mut enc_witness: (Seq<u8>, Seq<u8>) = (
                Seq::<u8>::empty(),
                Seq::<u8>::empty(),
            );
            let stored_rec: Vec<FieldVal> = match &self.encryption_key {
                Some(key) => {
                    let mut body: Vec<u8> = Vec::new();
                    push_record_bin(&mut body, &rec);
                    match encrypt_bytes(key, body.as_slice()) {
                        Some((nonce, ct)) => {
                            let ghost noncev = nonce@;
                            let ghost ctv = ct@;
                            let mut erec: Vec<FieldVal> = Vec::new();
                            erec.push(FieldVal::U(5));
                            erec.push(FieldVal::B(nonce));
                            erec.push(FieldVal::B(ct));
                            proof {
                                enc_witness = (noncev, ctv);
                                assert(field_views(erec@) =~= enc_event_record(
                                    noncev,
                                    ctv,
                                ));
                                assert(noncev.len() == 24);
                                assert(forall|k: int|
                                    0 <= k < erec@.len() ==> #[trigger] field_views(
                                        erec@,
                                    )[k] == erec@[k]@);
                                assert(parse_event_rec(field_views(erec@)) is None);
                                assert(parse_enc_event_rec(field_views(erec@)) matches Some(
                                    p,
                                ));
                                lemma_parse_event_record(event@);
                                assert(body@.subrange(
                                    0,
                                    crate::codec::enc_record_bin(event_record(event@)).len()
                                        as int,
                                ) =~= body@);
                                crate::codec::lemma_dec_enc_record_bin(
                                    body@,
                                    0,
                                    event_record(event@),
                                );
                                assert(log_event_of(
                                    field_views(erec@),
                                    key_view(self.encryption_key),
                                ) == Some(event@));
                            }
                            erec
                        },
                        None => {
                            return Err(
                                TimeLoopError::Storage(
                                    String::from_str("encryption failed"),
                                ),
                            );
                        },
                    }
                },
                None => {
                    proof {
                        lemma_parse_event_record(event@);
                        assert(log_event_of(
                            field_views(rec@),
                            key_view(self.encryption_key),
                        ) == Some(event@));
                    }
                    rec
                },
            };
            let ghost pre_log = self.files.log@;
            let ghost pre_logged = self.logged@;
            let appended: bool = match self.persistence_format {
                PersistenceFormat::Binary => append_record_bin(
                    &mut self.files.log,
                    &stored_rec,
                ),
                PersistenceFormat::Text => {
                    crate::text::push_record_text(&mut self.files.log, &stored_rec);
                    true
                },
            };
            if !appended {
                return self.write_snapshot_now();
            }
            proof {
                self.logged@ = pre_logged.push(field_views(stored_rec@));
            }
            self.persisted = true;
            proof {
                let fmt = self.persistence_format;
                let key = key_view(self.encryption_key);
                match fmt {
                    PersistenceFormat::Binary => {
                        lemma_enc_log_bin_push(pre_logged, field_views(stored_rec@));
                        assert(self.files.log@ == enc_log_bin(self.logged@));
                        assert(forall|i: int|
                            0 <= i < self.logged@.len() ==> frame_wf(
                                #[trigger] self.logged@[i],
                            )) by {
                            assert(forall|i: int|
                                0 <= i < pre_logged.len() ==> #[trigger] self.logged@[i]
                                    == pre_logged[i]);
                            assert(self.logged@[pre_logged.len() as int] == field_views(
                                stored_rec@,
                            ));
                        }
                        assert(self.files.log@.subrange(
                            0,
                            self.files.log@.len() as int,
                        ) =~= self.files.log@);
                        lemma_dec_enc_log_bin(self.files.log@, 0, self.logged@);
                    },
                    PersistenceFormat::Text => {
                        crate::text::lemma_enc_records_text_push(
                            pre_logged,
                            field_views(stored_rec@),
                        );
                        assert(self.files.log@ == crate::text::enc_records_text(
                            self.logged@,
                        ));
                        assert(forall|i: int|
                            0 <= i < self.logged@.len() ==> record_wf(
                                #[trigger] self.logged@[i],
                            )) by {
                            assert(forall|i: int|
                                0 <= i < pre_logged.len() ==> #[trigger] self.logged@[i]
                                    == pre_logged[i]);
                            assert(self.logged@[pre_logged.len() as int] == field_views(
                                stored_rec@,
                            ));
                        }
                        assert(text_doc_ok(self.logged@)) by {
                            assert(forall|i: int|
                                0 <= i < pre_logged.len() ==> #[trigger] self.logged@[i]
                                    == pre_logged[i]);
                            assert(self.logged@[pre_logged.len() as int] == field_views(
                                stored_rec@,
                            ));
                        }
                        assert(self.files.log@.subrange(
                            0,
                            self.files.log@.len() as int,
                        ) =~= self.files.log@);
                        crate::text::lemma_dec_enc_records_text(
                            self.files.log@,
                            0,
                            self.logged@,
                        );
                    },
                }
                assert(log_records_of(fmt, self.files.log@) == Some(self.logged@));
                let basev = match pre.snapshot_view() {
                    Some(b) => snapshot_state_of(fmt, key, b),
                    None => Some(empty_state_view()),
                };
                assert(stored_state(fmt, key, pre.snapshot_view(), pre.files.log@)
                    == Some(state_view(pre.state)));
                assert(basev matches Some(bv));
                let bv = basev.unwrap();
                assert(log_records_of(fmt, pre.files.log@) == Some(pre_logged)) by {
                    match fmt {
                        PersistenceFormat::Binary => {
                            assert(pre.files.log@.subrange(
                                0,
                                pre.files.log@.len() as int,
                            ) =~= pre.files.log@);
                            lemma_dec_enc_log_bin(pre.files.log@, 0, pre_logged);
                        },
                        PersistenceFormat::Text => {
                            assert(pre.files.log@.subrange(
                                0,
                                pre.files.log@.len() as int,
                            ) =~= pre.files.log@);
                            crate::text::lemma_dec_enc_records_text(
                                pre.files.log@,
                                0,
                                pre_logged,
                            );
                        },
                    }
                }
                assert(replay_events(pre_logged, key, bv.events) == Some(
                    event_views(pre.state.events@),
                ));
                lemma_replay_events_push(
                    pre_logged,
                    field_views(stored_rec@),
                    key,
                    bv.events,
                );
                assert(replay_events(self.logged@, key, bv.events) == Some(
                    event_views(self.state.events@),
                ));
                assert(stored_state(fmt, key, self.snapshot_view(), self.files.log@)
                    == Some(state_view(self.state))) by {
                    assert(state_view(self.state) == StateView {
                        events: event_views(self.state.events@),
                        sessions: session_views(self.state.sessions@),
                        branches: branch_views(self.state.branches@),
                    });
                    assert(session_views(self.state.sessions@) == bv.sessions);
                    assert(branch_views(self.state.branches@) == bv.branches);
                }
                assert(self.files.log@ == pre_log + log_frame_of(
                    fmt,
                    field_views(stored_rec@),
                ));
                match pre.encryption_key {
                    Some(_) => {
                        assert(field_views(stored_rec@) == enc_event_record(
                            enc_witness.0,
                            enc_witness.1,
                        ));
                        assert(self.files.log@ == pre_log + log_frame_of(
                            fmt,
                            enc_event_record(enc_witness.0, enc_witness.1),
                        ));
                        assert(log_frame_of(fmt, field_views(stored_rec@)).len() > 0) by {
                            match fmt {
                                PersistenceFormat::Binary => {
                                    vstd::bytes::lemma_auto_spec_u32_to_from_le_bytes();
                                },
                                PersistenceFormat::Text => {},
                            }
                        }
                        assert(self.files.log@.len() > pre_log.len());
                    },
                    None => {
                        assert(field_views(stored_rec@) == event_record(event@));
                    },
                }
            }
            Ok(())
        } else {
            self.persist_full_or_autosave()
        }
    }
}

impl Storage {
    /// Store (insert or replace by id) one session and rewrite the
    /// snapshot.  Session and branch mutations always go through
    /// full-snapshot persistence.
    pub fn store_session(&mut self, session: &Session) -> (r: TlResult<()>)
        requires
            old(self).wf(),
        ensures
            final(self).wf(),
            session_views(final(self).state.sessions@) == upsert_session_view(
                session_views(old(self).state.sessions@),
                session@,
            ),
            final(self).state.events@ == old(self).state.events@,
            final(self).state.branches@ == old(self).state.branches@,
            final(self).persistence_format == old(self).persistence_format,
            final(self).append_only == old(self).append_only,
            final(self).encryption_key == old(self).encryption_key,
            final(self).encryption_salt == old(self).encryption_salt,
            final(self).persistence_path == old(self).persistence_path,
            final(self).files.archives == old(self).files.archives,
            r is Ok ==> final(self).persisted,
            r is Err <==> (old(self).encryption_key is Some && snapshot_plain_of(
                old(self).persistence_format,
                state_view(final(self).state),
            ).len() >= aead_max_plaintext_len()),
            r matches Err(e) ==> e is Storage,
    {
        self.persisted = false;
        let c = session.clone();
        let ghost pre = self.state.sessions@;
        self.state.upsert_session(c);
        proof {
            lemma_upsert_session_views(pre, c);
        }
        self.write_snapshot_now()
    }

    /// Store (insert or replace by id) one branch and rewrite the
    /// snapshot.
    pub fn store_branch(&mut self, branch: &TimelineBranch) -> (r: TlResult<()>)
        requires
            old(self).wf(),
        ensures
            final(self).wf(),
            branch_views(final(self).state.branches@) == upsert_branch_view(
                branch_views(old(self).state.branches@),
                branch@,
            ),
            final(self).state.events@ == old(self).state.events@,
            final(self).state.sessions@ == old(self).state.sessions@,
            final(self).persistence_format == old(self).persistence_format,
            final(self).append_only == old(self).append_only,
            final(self).encryption_key == old(self).encryption_key,
            final(self).encryption_salt == old(self).encryption_salt,
            final(self).persistence_path == old(self).persistence_path,
            final(self).files.archives == old(self).files.archives,
            r is Ok ==> final(self).persisted,
            r is Err <==> (old(self).encryption_key is Some && snapshot_plain_of(
                old(self).persistence_format,
                state_view(final(self).state),
            ).len() >= aead_max_plaintext_len()),
            r matches Err(e) ==> e is Storage,
    {
        self.persisted = false;
        let c = branch.clone();
        let ghost pre = self.state.branches@;
        self.state.upsert_branch(c);
        proof {
            lemma_upsert_branch_views(pre, c);
        }
        self.write_snapshot_now()
    }

    /// Remove a session and every event keyed to it, and rewrite the
    /// snapshot.
    pub fn delete_session(&mut self, session_id: &String) -> (r: TlResult<()>)
        requires
            old(self).wf(),
        ensures
            final(self).wf(),
            final(self).state.sessions@ == sessions_without(
                old(self).state.sessions@,
                session_id@,
            ),
            final(self).state.events@ == events_without_session(
                old(self).state.events@,
                session_id@,
            ),
            final(self).state.branches@ == old(self).state.branches@,
            final(self).encryption_key == old(self).encryption_key,
            final(self).persistence_path == old(self).persistence_path,
            r is Ok ==> final(self).persisted,
            r is Err <==> (old(self).encryption_key is Some && snapshot_plain_of(
                old(self).persistence_format,
                state_view(final(self).state),
            ).len() >= aead_max_plaintext_len()),
            r matches Err(e) ==> e is Storage,
    {
        self.persisted = false;
        self.state.remove_session(session_id);
        self.write_snapshot_now()
    }

    /// Remove a branch and every event keyed to the branch's id, and
    /// rewrite the snapshot.
    pub fn delete_branch(&mut self, branch_id: &String) -> (r: TlResult<()>)
        requires
            old(self).wf(),
        ensures
            final(self).wf(),
            final(self).state.branches@ == branches_without(
                old(self).state.branches@,
                branch_id@,
            ),
            final(self).state.events@ == events_without_session(
                old(self).state.events@,
                branch_id@,
            ),
            final(self).state.sessions@ == old(self).state.sessions@,
            final(self).encryption_key == old(self).encryption_key,
            final(self).persistence_path == old(self).persistence_path,
            r is Ok ==> final(self).persisted,
            r is Err <==> (old(self).encryption_key is Some && snapshot_plain_of(
                old(self).persistence_format,
                state_view(final(self).state),
            ).len() >= aead_max_plaintext_len()),
            r matches Err(e) ==> e is Storage,
    {
        self.persisted = false;
        self.state.remove_branch(branch_id);
        self.write_snapshot_now()
    }

    /// Remove every event keyed to one session, and rewrite the snapshot.
    pub fn clear_session_events(&mut self, session_id: &String) -> (r: TlResult<()>)
        requires
            old(self).wf(),
        ensures
            final(self).wf(),
            final(self).state.events@ == events_without_session(
                old(self).state.events@,
                session_id@,
            ),
            final(self).state.sessions@ == old(self).state.sessions@,
            final(self).state.branches@ == old(self).state.branches@,
            final(self).encryption_key == old(self).encryption_key,
            r is Ok ==> final(self).persisted,
            r is Err <==> (old(self).encryption_key is Some && snapshot_plain_of(
                old(self).persistence_format,
                state_view(final(self).state),
            ).len() >= aead_max_plaintext_len()),
            r matches Err(e) ==> e is Storage,
    {
        self.persisted = false;
        self.state.clear_session_events(session_id);
        self.write_snapshot_now()
    }

    /// Force the snapshot write the current mode would otherwise do
    /// lazily.
    pub fn flush(&mut self) -> (r: TlResult<()>)
        requires
            old(self).wf(),
        ensures
            final(self).wf(),
            final(self).state == old(self).state,
            final(self).persistence_format == old(self).persistence_format,
            final(self).append_only == old(self).append_only,
            final(self).encryption_key == old(self).encryption_key,
            final(self).encryption_salt == old(self).encryption_salt,
            final(self).persistence_path == old(self).persistence_path,
            final(self).files.archives == old(self).files.archives,
            r is Ok ==> final(self).persisted && final(self).files.log@.len() == 0,
            r is Err <==> (old(self).encryption_key is Some && snapshot_plain_of(
                old(self).persistence_format,
                state_view(old(self).state),
            ).len() >= aead_max_plaintext_len()),
            r matches Err(e) ==> e is Storage,
    {
        let r = self.write_snapshot_now();
        if r.is_ok() {
            self.pending_writes = 0;
        }
        r
    }

    /// Force an immediate save, bypassing the autosave policy.
    pub fn force_save(&mut self) -> (r: TlResult<()>)
        requires
            old(self).wf(),
        ensures
            final(self).wf(),
            final(self).state == old(self).state,
            r is Ok ==> final(self).persisted,
            r is Err <==> (old(self).encryption_key is Some && snapshot_plain_of(
                old(self).persistence_format,
                state_view(old(self).state),
            ).len() >= aead_max_plaintext_len()),
            r matches Err(e) ==> e is Storage,
    {
        self.flush()
    }

    /// Switch this handle to append-only event logging.  Takes effect
    /// only on a path-bound handle.
    pub fn enable_append_only(&mut self)
        requires
            old(self).wf(),
        ensures
            final(self).wf(),
            final(self).state == old(self).state,
            old(self).persistence_path is Some ==> final(self).append_only,
    {
        match &self.persistence_path {
            Some(p) => {
                self.events_log_path = Some(events_log_path_for(p, self.persistence_format));
                self.append_only = true;
            },
            None => {},
        }
    }

    /// Set the per-handle maximum log size; nothing else changes.
    pub fn set_max_log_size_bytes(&mut self, v: Option<u64>)
        requires
            old(self).wf(),
        ensures
            final(self).wf(),
            *final(self) == (Storage { max_log_size_bytes: v, ..*old(self) }),
    {
        self.max_log_size_bytes = v;
    }

    /// Set the per-handle maximum event count; nothing else changes.
    pub fn set_max_events(&mut self, v: Option<u64>)
        requires
            old(self).wf(),
        ensures
            final(self).wf(),
            *final(self) == (Storage { max_events: v, ..*old(self) }),
    {
        self.max_events = v;
    }

    /// Set how many rotated archives are kept; nothing else changes.
    pub fn set_retention_count(&mut self, v: u64)
        requires
            old(self).wf(),
        ensures
            final(self).wf(),
            *final(self) == (Storage { retention_count: v, ..*old(self) }),
    {
        self.retention_count = v;
    }

    /// Set the background compaction interval; nothing else changes.
    pub fn set_compaction_interval_secs(&mut self, v: Option<u64>)
        requires
            old(self).wf(),
        ensures
            final(self).wf(),
            *final(self) == (Storage { compaction_interval_secs: v, ..*old(self) }),
    {
        self.compaction_interval_secs = v;
    }

    /// Replace the whole compaction policy; nothing else changes.
    pub fn set_compaction_policy(&mut self, p: CompactionPolicy)
        requires
            old(self).wf(),
        ensures
            final(self).wf(),
            *final(self) == (Storage {
                max_log_size_bytes: p.max_log_size_bytes,
                max_events: p.max_events,
                retention_count: p.retention_count,
                compaction_interval_secs: p.compaction_interval_secs,
                ..*old(self)
            }),
    {
        self.max_log_size_bytes = p.max_log_size_bytes;
        self.max_events = p.max_events;
        self.retention_count = p.retention_count;
        self.compaction_interval_secs = p.compaction_interval_secs;
    }

    /// The per-handle retention count.
    pub fn retention_count(&self) -> (r: u64)
        ensures
            r == self.retention_count,
    {
        self.retention_count
    }

    /// Set the autosave policy; nothing else changes.
    pub fn set_autosave_policy(&mut self, policy: AutosavePolicy)
        requires
            old(self).wf(),
        ensures
            final(self).wf(),
            *final(self) == (Storage { autosave_policy: Some(policy), ..*old(self) }),
    {
        self.autosave_policy = Some(policy);
    }

    /// Mutations coalesced since the last save: the observability
    /// counter the coalescing policy reads.
    pub fn pending_writes(&self) -> (r: u32)
        ensures
            r == self.pending_writes,
    {
        self.pending_writes
    }

    /// The current autosave policy.
    pub fn autosave_policy(&self) -> (r: Option<&AutosavePolicy>)
        ensures
            match (r, self.autosave_policy) {
                (Some(a), Some(b)) => *a == b,
                (None, None) => true,
                _ => false,
            },
    {
        self.autosave_policy.as_ref()
    }
}

/// Insert-or-replace by id over session views.
pub open spec fn upsert_session_view(ss: Seq<crate::session::SessionV>, x: crate::session::SessionV) -> Seq<
    crate::session::SessionV,
>
    decreases ss.len(),
{
    if ss.len() == 0 {
        seq![x]
    } else if ss[0].id == x.id {
        seq![x] + ss.drop_first()
    } else {
        seq![ss[0]] + upsert_session_view(ss.drop_first(), x)
    }
}

/// Insert-or-replace by id over branch views.
pub open spec fn upsert_branch_view(bs: Seq<crate::branch::TimelineBranchV>, x: crate::branch::TimelineBranchV) -> Seq<
    crate::branch::TimelineBranchV,
>
    decreases bs.len(),
{
    if bs.len() == 0 {
        seq![x]
    } else if bs[0].id == x.id {
        seq![x] + bs.drop_first()
    } else {
        seq![bs[0]] + upsert_branch_view(bs.drop_first(), x)
    }
}

/// Upserting values and upserting views agree.
pub proof fn lemma_upsert_session_views(s: Seq<Session>, x: Session)
    ensures
        session_views(upsert_session_seq(s, x)) == upsert_session_view(
            session_views(s),
            x@,
        ),
    decreases s.len(),
{
    reveal_with_fuel(upsert_session_view, 2);
    if s.len() == 0 {
        assert(session_views(upsert_session_seq(s, x)) =~= upsert_session_view(
            session_views(s),
            x@,
        ));
    } else {
        assert(session_views(s).drop_first() =~= session_views(s.drop_first()));
        if s[0].id@ == x.id@ {
            assert(session_views(upsert_session_seq(s, x)) =~= upsert_session_view(
                session_views(s),
                x@,
            ));
        } else {
            lemma_upsert_session_views(s.drop_first(), x);
            assert(session_views(upsert_session_seq(s, x)) =~= upsert_session_view(
                session_views(s),
                x@,
            ));
        }
    }
}

/// Upserting values and upserting views agree.
pub proof fn lemma_upsert_branch_views(s: Seq<TimelineBranch>, x: TimelineBranch)
    ensures
        branch_views(upsert_branch_seq(s, x)) == upsert_branch_view(branch_views(s), x@),
    decreases s.len(),
{
    reveal_with_fuel(upsert_branch_view, 2);
    if s.len() == 0 {
        assert(branch_views(upsert_branch_seq(s, x)) =~= upsert_branch_view(
            branch_views(s),
            x@,
        ));
    } else {
        assert(branch_views(s).drop_first() =~= branch_views(s.drop_first()));
        if s[0].id@ == x.id@ {
            assert(branch_views(upsert_branch_seq(s, x)) =~= upsert_branch_view(
                branch_views(s),
                x@,
            ));
        } else {
            lemma_upsert_branch_views(s.drop_first(), x);
            assert(branch_views(upsert_branch_seq(s, x)) =~= upsert_branch_view(
                branch_views(s),
                x@,
            ));
        }
    }
}

/// Events with timestamps inside a closed range, in order.
pub open spec fn events_between(s: Seq<Event>, lo: i64, hi: i64) -> Seq<Event>
    decreases s.len(),
{
    if s.len() == 0 {
        Seq::empty()
    } else if lo <= s[0].timestamp <= hi {
        seq![s[0]] + events_between(s.drop_first(), lo, hi)
    } else {
        events_between(s.drop_first(), lo, hi)
    }
}

/// Push distributes over the range filter.
proof fn lemma_events_between_push(s: Seq<Event>, e: Event, lo: i64, hi: i64)
    ensures
        events_between(s.push(e), lo, hi) == if lo <= e.timestamp <= hi {
            events_between(s, lo, hi).push(e)
        } else {
            events_between(s, lo, hi)
        },
    decreases s.len(),
{
    reveal_with_fuel(events_between, 3);
    if s.len() == 0 {
        assert(s.push(e).drop_first() =~= Seq::<Event>::empty());
        if lo <= e.timestamp <= hi {
            assert(events_between(s.push(e), lo, hi) =~= events_between(s, lo, hi).push(e));
        }
    } else {
        assert(s.push(e).drop_first() =~= s.drop_first().push(e));
        lemma_events_between_push(s.drop_first(), e, lo, hi);
        if lo <= e.timestamp <= hi {
            assert(events_between(s.push(e), lo, hi) =~= events_between(s, lo, hi).push(e));
        } else {
            assert(events_between(s.push(e), lo, hi) =~= events_between(s, lo, hi));
        }
    }
}

impl Storage {
    /// Look one session up by id.
    pub fn get_session(&self, session_id: &String) -> (r: Option<Session>)
        ensures
            match (r, find_session_seq(self.state.sessions@, session_id@)) {
                (Some(a), Some(b)) => a@ == b@,
                (None, None) => true,
                _ => false,
            },
    {
        self.state.get_session(session_id)
    }

    /// Look one branch up by id.
    pub fn get_branch(&self, branch_id: &String) -> (r: Option<TimelineBranch>)
        ensures
            match (r, find_branch_seq(self.state.branches@, branch_id@)) {
                (Some(a), Some(b)) => a@ == b@,
                (None, None) => true,
                _ => false,
            },
    {
        self.state.get_branch(branch_id)
    }

    /// Every session, sorted by creation time.
    pub fn list_sessions(&self) -> (r: Vec<Session>)
        ensures
            session_views(r@).to_multiset() == session_views(
                self.state.sessions@,
            ).to_multiset(),
            crate::sort::sessions_sorted_by_created(r@),
    {
        let n = self.state.sessions.len();
        let mut out: Vec<Session> = Vec::new();
        let mut i: usize = 0;
        while i < n
            invariant
                i <= n,
                n == self.state.sessions@.len(),
                session_views(out@) == session_views(self.state.sessions@.take(i as int)),
            decreases n - i,
        {
            let ghost pre = out@;
            out.push(self.state.sessions[i].clone());
            proof {
                assert(self.state.sessions@.take(i + 1) =~= self.state.sessions@.take(
                    i as int,
                ).push(self.state.sessions@[i as int]));
                assert(session_views(pre).len() == pre.len());
                assert(session_views(self.state.sessions@.take(i as int)).len() == i);
                assert(pre.len() == i);
                assert(session_views(out@).len() == i + 1);
                assert(session_views(self.state.sessions@.take(i + 1)).len() == i + 1);
                assert forall|k: int| 0 <= k < out@.len() implies session_views(out@)[k]
                    == session_views(self.state.sessions@.take(i + 1))[k] by {
                    if k < pre.len() {
                        assert(out@[k] == pre[k]);
                        assert(session_views(pre)[k] == session_views(
                            self.state.sessions@.take(i as int),
                        )[k]);
                    } else {
                        assert(out@[k]@ == self.state.sessions@[i as int]@);
                    }
                }
                assert(session_views(out@) =~= session_views(
                    self.state.sessions@.take(i + 1),
                ));
            }
            i = i + 1;
        }
        proof {
            assert(self.state.sessions@.take(n as int) =~= self.state.sessions@);
        }
        crate::sort::sorted_sessions(out)
    }

    /// Every branch, sorted by creation time.
    pub fn list_branches(&self) -> (r: Vec<TimelineBranch>)
        ensures
            branch_views(r@).to_multiset() == branch_views(
                self.state.branches@,
            ).to_multiset(),
            crate::sort::branches_sorted_by_created(r@),
    {
        let n = self.state.branches.len();
        let mut out: Vec<TimelineBranch> = Vec::new();
        let mut i: usize = 0;
        while i < n
            invariant
                i <= n,
                n == self.state.branches@.len(),
                branch_views(out@) == branch_views(self.state.branches@.take(i as int)),
            decreases n - i,
        {
            let ghost pre = out@;
            out.push(self.state.branches[i].clone());
            proof {
                assert(self.state.branches@.take(i + 1) =~= self.state.branches@.take(
                    i as int,
                ).push(self.state.branches@[i as int]));
                assert(branch_views(pre).len() == pre.len());
                assert(branch_views(self.state.branches@.take(i as int)).len() == i);
                assert(pre.len() == i);
                assert(branch_views(out@).len() == i + 1);
                assert(branch_views(self.state.branches@.take(i + 1)).len() == i + 1);
                assert forall|k: int| 0 <= k < out@.len() implies branch_views(out@)[k]
                    == branch_views(self.state.branches@.take(i + 1))[k] by {
                    if k < pre.len() {
                        assert(out@[k] == pre[k]);
                        assert(branch_views(pre)[k] == branch_views(
                            self.state.branches@.take(i as int),
                        )[k]);
                    } else {
                        assert(out@[k]@ == self.state.branches@[i as int]@);
                    }
                }
                assert(branch_views(out@) =~= branch_views(
                    self.state.branches@.take(i + 1),
                ));
            }
            i = i + 1;
        }
        proof {
            assert(self.state.branches@.take(n as int) =~= self.state.branches@);
        }
        crate::sort::sorted_branches(out)
    }

    /// One session's events, sorted by sequence number regardless of
    /// storage order.
    pub fn get_events_for_session(&self, session_id: &String) -> (r: Vec<Event>)
        ensures
            event_views(r@).to_multiset() == event_views(
                events_of_session(self.state.events@, session_id@),
            ).to_multiset(),
            crate::sort::events_sorted_by_seq(r@),
    {
        let own = self.state.events_for_session(session_id);
        proof {
            assert(event_views(own@).to_multiset() == event_views(
                events_of_session(self.state.events@, session_id@),
            ).to_multiset());
        }
        crate::sort::sorted_events(own)
    }

    /// One session's events with timestamps in the closed range, sorted
    /// by sequence number.
    pub fn get_events_in_range(&self, session_id: &String, start_ms: i64, end_ms: i64) -> (r:
        Vec<Event>)
        ensures
            event_views(r@).to_multiset() == event_views(
                events_between(
                    events_of_session(self.state.events@, session_id@),
                    start_ms,
                    end_ms,
                ),
            ).to_multiset(),
            crate::sort::events_sorted_by_seq(r@),
    {
        let own = self.state.events_for_session(session_id);
        let ghost all = events_of_session(self.state.events@, session_id@);
        let n = own.len();
        let mut kept: Vec<Event> = Vec::new();
        let mut i: usize = 0;
        proof {
            assert(event_views(own@).len() == event_views(all).len());
            assert(n == all.len());
        }
        while i < n
            invariant
                i <= n,
                n == own@.len(),
                n == all.len(),
                event_views(own@) == event_views(all),
                event_views(kept@) == event_views(
                    events_between(all.take(i as int), start_ms, end_ms),
                ),
            decreases n - i,
        {
            let ghost pre = kept@;
            if start_ms <= own[i].timestamp && own[i].timestamp <= end_ms {
                kept.push(own[i].clone());
            }
            proof {
                assert(all.take(i + 1) =~= all.take(i as int).push(all[i as int]));
                lemma_events_between_push(all.take(i as int), all[i as int], start_ms, end_ms);
                assert(event_views(own@)[i as int] == event_views(all)[i as int]);
                assert(own@[i as int]@ == all[i as int]@);
                let xb = events_between(all.take(i as int), start_ms, end_ms);
                assert(event_views(pre).len() == pre.len());
                assert(event_views(xb).len() == xb.len());
                assert(pre.len() == xb.len());
                assert forall|k: int| 0 <= k < kept@.len() implies event_views(kept@)[k]
                    == event_views(events_between(all.take(i + 1), start_ms, end_ms))[k]
                    by {
                    if k < pre.len() {
                        assert(kept@[k] == pre[k]);
                        assert(event_views(pre)[k] == event_views(xb)[k]);
                    } else {
                        assert(kept@[k]@ == own@[i as int]@);
                    }
                }
                assert(event_views(kept@).len() == event_views(
                    events_between(all.take(i + 1), start_ms, end_ms),
                ).len());
                assert(event_views(kept@) =~= event_views(
                    events_between(all.take(i + 1), start_ms, end_ms),
                ));
            }
            i = i + 1;
        }
        proof {
            assert(all.take(n as int) =~= all);
        }
        crate::sort::sorted_events(kept)
    }

    /// The event with the highest sequence number in one session, if any.
    pub fn get_last_event(&self, session_id: &String) -> (r: Option<Event>)
        ensures
            match r {
                None => events_of_session(self.state.events@, session_id@).len() == 0,
                Some(e) => {
                    &&& event_views(
                        events_of_session(self.state.events@, session_id@),
                    ).to_multiset().contains(e@)
                    &&& forall|k: int|
                        0 <= k < events_of_session(self.state.events@, session_id@).len()
                            ==> events_of_session(
                            self.state.events@,
                            session_id@,
                        )[k].sequence_number <= e.sequence_number
                },
            },
    {
        broadcast use vstd::seq_lib::group_to_multiset_ensures;

        let evs = self.get_events_for_session(session_id);
        let ghost all = events_of_session(self.state.events@, session_id@);
        if evs.len() == 0 {
            proof {
                assert(event_views(evs@).to_multiset().len() == 0);
                assert(event_views(all).to_multiset().len() == 0);
                assert(event_views(all).len() == 0);
            }
            None
        } else {
            let e = evs[evs.len() - 1].clone();
            proof {
                let rv = event_views(evs@);
                assert(rv[rv.len() - 1] == e@);
                assert(rv.contains(e@));
                assert(rv.to_multiset().contains(e@));
                assert forall|k: int| 0 <= k < all.len() implies all[k].sequence_number
                    <= e.sequence_number by {
                    assert(event_views(all)[k] == all[k]@);
                    assert(event_views(all).contains(all[k]@));
                    assert(event_views(all).to_multiset().contains(all[k]@));
                    assert(rv.to_multiset().contains(all[k]@));
                    assert(rv.contains(all[k]@));
                    let j = choose|j: int| 0 <= j < rv.len() && rv[j] == all[k]@;
                    assert(evs@[j]@ == all[k]@);
                    assert(evs@[j].sequence_number <= evs@[evs@.len() - 1].sequence_number);
                }
            }
            Some(e)
        }
    }

    /// The `n` highest-sequence-number events of one session, sorted
    /// ascending; empty for `n` of zero.
    pub fn get_last_n_events(&self, session_id: &String, n: usize) -> (r: Vec<Event>)
        ensures
            crate::sort::events_sorted_by_seq(r@),
            r@.len() == if n as int <= events_of_session(
                self.state.events@,
                session_id@,
            ).len() {
                n as int
            } else {
                events_of_session(self.state.events@, session_id@).len() as int
            },
            exists|s: Seq<EventV>|
                {
                    &&& #[trigger] s.to_multiset() == event_views(
                        events_of_session(self.state.events@, session_id@),
                    ).to_multiset()
                    &&& (forall|i: int, j: int|
                        0 <= i < j < s.len() ==> s[i].sequence_number
                            <= s[j].sequence_number)
                    &&& event_views(r@) == s.skip(s.len() - r@.len())
                },
    {
        broadcast use vstd::seq_lib::group_to_multiset_ensures;

        let evs = self.get_events_for_session(session_id);
        let ghost all = events_of_session(self.state.events@, session_id@);
        proof {
            assert(event_views(evs@).to_multiset().len() == event_views(
                all,
            ).to_multiset().len());
            assert(event_views(evs@).len() == event_views(all).len());
            assert(evs@.len() == all.len());
        }
        let total = evs.len();
        let k: usize = if n <= total {
            n
        } else {
            total
        };
        let start: usize = total - k;
        let mut out: Vec<Event> = Vec::new();
        let mut i: usize = 0;
        while i < k
            invariant
                i <= k,
                k <= evs@.len(),
                evs@.len() <= usize::MAX,
                start == evs@.len() - k,
                event_views(out@) == event_views(evs@).subrange(
                    start as int,
                    start + i,
                ),
                forall|a: int, b: int|
                    0 <= a < b < out@.len() ==> out@[a].sequence_number
                        <= out@[b].sequence_number,
                crate::sort::events_sorted_by_seq(evs@),
            decreases k - i,
        {
            let ghost pre = out@;
            out.push(evs[start + i].clone());
            proof {
                assert(event_views(pre).len() == pre.len());
                assert(event_views(evs@).subrange(start as int, start + i).len() == i);
                assert(pre.len() == i);
                assert forall|k: int| 0 <= k < out@.len() implies event_views(out@)[k]
                    == event_views(evs@).subrange(start as int, start + i + 1)[k] by {
                    if k < pre.len() {
                        assert(out@[k] == pre[k]);
                        assert(event_views(pre)[k] == event_views(evs@).subrange(
                            start as int,
                            start + i,
                        )[k]);
                        assert(event_views(evs@).subrange(start as int, start + i)[k]
                            == event_views(evs@)[start + k]);
                    } else {
                        assert(out@[k]@ == evs@[start + i]@);
                        assert(event_views(evs@)[start + i] == evs@[start + i]@);
                    }
                }
                assert(event_views(out@) =~= event_views(evs@).subrange(
                    start as int,
                    start + i + 1,
                ));
                assert forall|a: int, b: int|
                    0 <= a < b < out@.len() implies out@[a].sequence_number
                    <= out@[b].sequence_number by {
                    assert(event_views(out@)[a] == out@[a]@);
                    assert(event_views(out@)[b] == out@[b]@);
                    assert(event_views(evs@)[start + a] == evs@[start + a]@);
                    assert(event_views(evs@)[start + b] == evs@[start + b]@);
                    assert(evs@[start + a].sequence_number <= evs@[start
                        + b].sequence_number);
                }
            }
            i = i + 1;
        }
        proof {
            let sv = event_views(evs@);
            assert(sv.subrange(start as int, start + k) =~= sv.skip(sv.len() - k));
            assert(sv.to_multiset() == event_views(all).to_multiset());
            assert(forall|a: int, b: int|
                0 <= a < b < sv.len() ==> sv[a].sequence_number <= sv[b].sequence_number)
                by {
                assert(forall|a: int|
                    0 <= a < sv.len() ==> #[trigger] sv[a] == evs@[a]@);
            }
        }
        out
    }
}

/// The saturated record count of log bytes: frames or lines, capped at
/// the largest `u64`.
pub open spec fn log_count_sat(fmt: PersistenceFormat, b: Seq<u8>) -> u64 {
    let n = match fmt {
        PersistenceFormat::Binary => count_frames_bin(b, 0),
        PersistenceFormat::Text => count_lines(b, 0),
    };
    if n >= u64::MAX {
        u64::MAX
    } else {
        n as u64
    }
}

impl Storage {
    /// The key-derivation parameters a passphrase rotation uses: the
    /// pinned ones, or the defaults when none were pinned yet.
    pub open spec fn chosen_kdf_params(self) -> Argon2Config {
        match self.argon2_config {
            Some(c) => c,
            None => Argon2Config { memory_kib: 65536, iterations: 3, parallelism: 1 },
        }
    }

    /// Whether the active log has outgrown the rotation thresholds: its
    /// size in bytes, or — checked only when the size threshold is not
    /// exceeded — its record count.
    pub open spec fn should_rotate_spec(self) -> bool {
        self.files.log@.len() > 0 && {
            let size_hit = self.max_log_size_bytes matches Some(ms) && self.files.log@.len()
                > ms;
            size_hit || (self.max_events matches Some(me) && log_count_sat(
                self.persistence_format,
                self.files.log@,
            ) > me)
        }
    }

    /// The rotation decision.
    fn should_rotate(&self) -> (r: bool)
        ensures
            r == self.should_rotate_spec(),
    {
        if self.files.log.len() == 0 {
            return false;
        }
        let size_hit: bool = match self.max_log_size_bytes {
            Some(ms) => (self.files.log.len() as u64) > ms,
            None => false,
        };
        if size_hit {
            return true;
        }
        match self.max_events {
            Some(me) => {
                let cnt: u64 = match self.persistence_format {
                    PersistenceFormat::Binary => count_log_records_bin(
                        self.files.log.as_slice(),
                    ),
                    PersistenceFormat::Text => count_log_records_text(
                        self.files.log.as_slice(),
                    ),
                };
                cnt > me
            },
            None => false,
        }
    }

    /// Rotate the active log into a timestamped archive and enforce
    /// retention: all but the newest `retention_count` archives are
    /// dropped (a retention count of zero disables pruning).  The handle
    /// is left unpersisted; the next snapshot write reconciles it.
    fn rotate_and_prune(&mut self)
        requires
            old(self).wf(),
        ensures
            final(self).wf(),
            !final(self).persisted,
            final(self).state == old(self).state,
            final(self).files.snapshot == old(self).files.snapshot,
            final(self).files.log@.len() == 0,
            final(self).files.archives@.len() >= 1,
            final(self).files.archives@.last().data@ == old(self).files.log@,
            final(self).files.archives@ == old(self).files.archives@.push(
                final(self).files.archives@.last(),
            ).skip(
                old(self).files.archives@.len() + 1 - final(self).files.archives@.len(),
            ),
            old(self).retention_count > 0 ==> final(self).files.archives@.len()
                <= old(self).retention_count,
            final(self).persistence_format == old(self).persistence_format,
            final(self).append_only == old(self).append_only,
            final(self).encryption_key == old(self).encryption_key,
            final(self).encryption_salt == old(self).encryption_salt,
            final(self).argon2_config == old(self).argon2_config,
            final(self).persistence_path == old(self).persistence_path,
            final(self).events_log_path == old(self).events_log_path,
            final(self).max_log_size_bytes == old(self).max_log_size_bytes,
            final(self).max_events == old(self).max_events,
            final(self).retention_count == old(self).retention_count,
            final(self).compaction_interval_secs == old(self).compaction_interval_secs,
            final(self).autosave_policy == old(self).autosave_policy,
    {
        let ts = rotation_timestamp();
        let mut name = match &self.events_log_path {
            Some(p) => p.clone(),
            None => String::from_str("events.log"),
        };
        name.append(".rot.");
        name.append(ts.as_str());
        let data = clone_bytes(&self.files.log);
        self.files.log = Vec::new();
        self.persisted = false;
        proof {
            self.logged@ = Seq::<Seq<FieldView>>::empty();
        }
        self.files.archives.push(LogArchive { name, data });
        let ghost pushed = self.files.archives@;
        proof {
            assert(pushed =~= pushed.skip(pushed.len() - self.files.archives@.len()));
        }
        let retention = self.retention_count;
        if retention > 0 {
            while (self.files.archives.len() as u64) > retention
                invariant
                    retention == self.retention_count,
                    retention > 0,
                    self.files.archives@.len() >= 1,
                    self.files.archives@.len() <= pushed.len(),
                    self.files.archives@ =~= pushed.skip(
                        pushed.len() - self.files.archives@.len(),
                    ),
                    self.files.archives@.last().data@ == old(self).files.log@,
                    self.state == old(self).state,
                    self.files.snapshot == old(self).files.snapshot,
                    self.files.log@.len() == 0,
                    !self.persisted,
                    self.logged@.len() == 0,
                    self.state.wf(),
                    self.encryption_key == old(self).encryption_key,
                    self.encryption_salt == old(self).encryption_salt,
                    self.argon2_config == old(self).argon2_config,
                    self.append_only == old(self).append_only,
                    self.persistence_format == old(self).persistence_format,
                    self.persistence_path == old(self).persistence_path,
                    self.events_log_path == old(self).events_log_path,
                    self.max_log_size_bytes == old(self).max_log_size_bytes,
                    self.max_events == old(self).max_events,
                    self.compaction_interval_secs == old(self).compaction_interval_secs,
                    self.autosave_policy == old(self).autosave_policy,
                    self.last_write_ms == old(self).last_write_ms,
                    self.pending_writes == old(self).pending_writes,
                decreases self.files.archives.len(),
            {
                let ghost pre = self.files.archives@;
                self.files.archives.remove(0);
                proof {
                    assert(self.files.archives@.last() == pre.last());
                    assert(self.files.archives@ =~= pushed.skip(
                        pushed.len() - self.files.archives@.len(),
                    ));
                }
            }
        }
        proof {
            assert(pushed == old(self).files.archives@.push(self.files.archives@.last()));
            assert(self.files.archives@ =~= pushed.skip(
                pushed.len() - self.files.archives@.len(),
            ));
        }
    }

    /// Rotate the active log into a timestamped archive when it exceeds
    /// the size or count thresholds, enforce retention, and write a fresh
    /// snapshot carrying the rotated log's effect.  Below the thresholds
    /// the active log's bytes are left untouched: a persisted handle's
    /// image already reproduces its state, so the call is then a no-op;
    /// an unpersisted handle is brought up to date with a snapshot write.
    pub fn compact(&mut self) -> (r: TlResult<()>)
        requires
            old(self).wf(),
        ensures
            final(self).wf(),
            final(self).state == old(self).state,
            final(self).encryption_key == old(self).encryption_key,
            final(self).encryption_salt == old(self).encryption_salt,
            final(self).persistence_path == old(self).persistence_path,
            r is Ok ==> final(self).persisted,
            !old(self).should_rotate_spec() && old(self).persisted ==> r is Ok
                && *final(self) == *old(self),
            old(self).should_rotate_spec() ==> final(self).files.archives@.len() >= 1
                && final(self).files.archives@.last().data@ == old(self).files.log@
                && final(self).files.log@.len() == 0 && final(self).files.archives@
                == old(self).files.archives@.push(final(self).files.archives@.last()).skip(
                old(self).files.archives@.len() + 1 - final(self).files.archives@.len(),
            ),
            !old(self).should_rotate_spec() ==> final(self).files.archives
                == old(self).files.archives,
            old(self).should_rotate_spec() && old(self).retention_count > 0
                ==> final(self).files.archives@.len() <= old(self).retention_count,
            r is Err <==> ((old(self).should_rotate_spec() || !old(self).persisted)
                && old(self).encryption_key is Some && snapshot_plain_of(
                old(self).persistence_format,
                state_view(old(self).state),
            ).len() >= aead_max_plaintext_len()),
            r matches Err(e) ==> e is Storage,
    {
        if self.should_rotate() {
            self.rotate_and_prune();
            self.write_snapshot_now()
        } else if !self.persisted {
            self.write_snapshot_now()
        } else {
            Ok(())
        }
    }

    /// The background rotation pass: rotate and enforce retention when
    /// the thresholds are exceeded, without re-snapshotting.  After a
    /// rotation the handle reports itself unpersisted, since the rotated
    /// events are no longer replayed from the active log.
    pub fn rotate_if_needed(&mut self)
        requires
            old(self).wf(),
        ensures
            final(self).wf(),
            final(self).state == old(self).state,
            final(self).files.snapshot == old(self).files.snapshot,
            old(self).should_rotate_spec() ==> final(self).files.archives@.len() >= 1
                && final(self).files.archives@.last().data@ == old(self).files.log@
                && final(self).files.log@.len() == 0 && final(self).files.archives@
                == old(self).files.archives@.push(final(self).files.archives@.last()).skip(
                old(self).files.archives@.len() + 1 - final(self).files.archives@.len(),
            ),
            !old(self).should_rotate_spec() ==> *final(self) == *old(self),
            old(self).should_rotate_spec() && old(self).retention_count > 0
                ==> final(self).files.archives@.len() <= old(self).retention_count,
    {
        if self.should_rotate() {
            self.rotate_and_prune();
        }
    }
}

/// What export-bundle bytes hold, plain or under a key.
pub open spec fn bundle_of_bytes(
    fmt: PersistenceFormat,
    key: Option<Seq<u8>>,
    b: Seq<u8>,
) -> Option<(crate::session::SessionV, Seq<EventV>)> {
    match key {
        None => match doc_of_bytes(fmt, b) {
            Some(d) => parse_bundle_doc(d),
            None => None,
        },
        Some(k) => match doc_of_bytes(fmt, b) {
            Some(d) => match parse_wrapper_doc(d) {
                Some((salt, nonce, ct)) => if nonce.len() == 24 {
                    match xchacha_open(k, nonce, ct) {
                        Some(p) => match doc_of_bytes(fmt, p) {
                            Some(inner) => parse_bundle_doc(inner),
                            None => None,
                        },
                        None => None,
                    }
                } else {
                    None
                },
                None => None,
            },
            None => None,
        },
    }
}

/// Fold event upserts over a base, the meaning of importing a bundle's
/// events in order.
pub open spec fn fold_upsert_events(base: Seq<EventV>, es: Seq<EventV>) -> Seq<EventV>
    decreases es.len(),
{
    if es.len() == 0 {
        base
    } else {
        fold_upsert_events(upsert_event_view(base, es[0]), es.drop_first())
    }
}

impl Storage {
    /// Re-derive the encryption key under a brand-new random salt and the
    /// supplied passphrase, re-encrypt the current in-memory snapshot,
    /// and overwrite the superseded key and salt bytes with zeros.
    /// Requires a path-bound handle; on an unencrypted one this turns
    /// encryption on.
    pub fn change_passphrase(&mut self, new_passphrase: &str) -> (r: TlResult<()>)
        requires
            old(self).wf(),
            new_passphrase@.len() <= 0x3FFFFFFF,
        ensures
            final(self).wf(),
            final(self).state == old(self).state,
            (r matches Err(e) && e is Configuration) <==> (old(self).persistence_path
                is None || !old(self).chosen_kdf_params().valid()),
            r matches Err(e) ==> (e is Configuration ==> *final(self) == *old(self)),
            r is Ok ==> {
                &&& final(self).persisted
                &&& (final(self).encryption_salt matches Some(s) && s@.len() == 16
                    && (final(self).encryption_key matches Some(k)
                    && (final(self).argon2_config matches Some(c) && k@ == derived_key_of(
                    new_passphrase@,
                    s@,
                    c.memory_kib,
                    c.iterations,
                    c.parallelism,
                ))))
            },
            r matches Err(e) ==> e is Configuration || e is Storage,
    {
        if self.persistence_path.is_none() {
            return Err(
                TimeLoopError::Configuration(
                    String::from_str("passphrase rotation requires a persisted storage path"),
                ),
            );
        }
        let params: Argon2Config = match &self.argon2_config {
            Some(c) => *c,
            None => Argon2Config::default(),
        };
        if !params.is_valid() {
            return Err(
                TimeLoopError::Configuration(
                    String::from_str("invalid key-derivation parameters"),
                ),
            );
        }
        let salt = fresh_salt();
        let key = match derive_key(
            new_passphrase,
            salt.as_slice(),
            params.memory_kib,
            params.iterations,
            params.parallelism,
        ) {
            Some(k) => k,
            None => {
                return Err(
                    TimeLoopError::Storage(String::from_str("key derivation failed")),
                );
            },
        };
        match &mut self.encryption_key {
            Some(old_key) => {
                wipe_key(old_key);
            },
            None => {},
        }
        match &mut self.encryption_salt {
            Some(old_salt) => {
                wipe_bytes(old_salt);
            },
            None => {},
        }
        self.encryption_key = Some(key);
        self.encryption_salt = Some(salt);
        self.argon2_config = Some(params);
        self.persisted = false;
        self.write_snapshot_now()
    }

    /// Bundle one session with its events, in the handle's encoding; an
    /// encrypted handle encrypts the bundle under its own key, recording
    /// its own salt and a fresh nonce.
    pub fn export_session(&self, session_id: &String) -> (r: TlResult<Vec<u8>>)
        requires
            self.wf(),
        ensures
            match r {
                Ok(b) => {
                    &&& (find_session_seq(self.state.sessions@, session_id@) matches Some(
                        sess,
                    ) && (bundle_of_bytes(
                        self.persistence_format,
                        key_view(self.encryption_key),
                        b@,
                    ) matches Some((sv, es)) && sv == sess@
                        && es.to_multiset() == event_views(
                        events_of_session(self.state.events@, session_id@),
                    ).to_multiset()))
                    &&& (self.encryption_key is Some ==> (wrapper_of_snapshot(
                        self.persistence_format,
                        b@,
                    ) matches Some((wsalt, wnonce, wct)) && (self.encryption_salt
                        matches Some(s) && wsalt == s@)))
                },
                Err(e) => {
                    &&& (e is SessionNotFound <==> find_session_seq(
                        self.state.sessions@,
                        session_id@,
                    ) is None)
                    &&& (e is SessionNotFound || e is Storage)
                    &&& (e is Storage ==> self.encryption_key is Some)
                },
            },
            find_session_seq(self.state.sessions@, session_id@) is Some
                && self.encryption_key is None ==> r is Ok,
    {
        let session = match self.get_session(session_id) {
            Some(s) => s,
            None => {
                return Err(TimeLoopError::SessionNotFound(session_id.clone()));
            },
        };
        let events = self.get_events_for_session(session_id);
        let d = bundle_to_doc(&session, &events);
        let plain = match self.persistence_format {
            PersistenceFormat::Binary => encode_doc_bin(&d),
            PersistenceFormat::Text => encode_doc_text(&d),
        };
        proof {
            lemma_parse_bundle_roundtrip(session@, event_views(events@));
        }
        match &self.encryption_key {
            Some(key) => {
                let salt = match &self.encryption_salt {
                    Some(sv) => clone_bytes(sv),
                    None => {
                        proof {
                            assert(false);
                        }
                        return Err(
                            TimeLoopError::Storage(
                                String::from_str("missing salt for encrypted storage"),
                            ),
                        );
                    },
                };
                match encrypt_bytes(key, plain.as_slice()) {
                    Some((nonce, ct)) => {
                        let wdoc = build_wrapper_doc(salt, nonce, ct);
                        let out = match self.persistence_format {
                            PersistenceFormat::Binary => encode_doc_bin(&wdoc),
                            PersistenceFormat::Text => encode_doc_text(&wdoc),
                        };
                        Ok(out)
                    },
                    None => Err(
                        TimeLoopError::Storage(String::from_str("encryption failed")),
                    ),
                }
            },
            None => Ok(plain),
        }
    }

    /// Import a bundle produced by `export_session`.  An encrypted bundle
    /// must carry this handle's own salt: one produced under a different
    /// salt is rejected with the distinct salt-mismatch error rather than
    /// mis-decrypted.  The bundle's session and events are stored as
    /// `store_session` and `store_event` would store them.
    pub fn import_session(&mut self, data: &Vec<u8>) -> (r: TlResult<String>)
        requires
            old(self).wf(),
        ensures
            final(self).wf(),
            (r matches Err(e) && e is SaltMismatch) <==> (old(self).encryption_key is Some
                && (wrapper_of_snapshot(old(self).persistence_format, data@) matches Some(
                (wsalt, wnonce, wct),
            ) && (old(self).encryption_salt matches Some(s) && wsalt != s@))),
            match r {
                Ok(id) => bundle_of_bytes(
                    old(self).persistence_format,
                    key_view(old(self).encryption_key),
                    data@,
                ) matches Some((sv, es)) && id@ == sv.id && session_views(
                    final(self).state.sessions@,
                ) == upsert_session_view(session_views(old(self).state.sessions@), sv)
                    && event_views(final(self).state.events@) == fold_upsert_events(
                    event_views(old(self).state.events@),
                    es,
                ) && final(self).state.branches@ == old(self).state.branches@,
                Err(_) => true,
            },
            r matches Err(e) && e is Decryption ==> (old(self).encryption_key is Some
                && (wrapper_of_snapshot(old(self).persistence_format, data@) matches Some(
                w,
            ) && (w.1.len() != 24 || (old(self).encryption_key matches Some(k)
                && xchacha_open(k@, w.1, w.2) is None)))),
            r matches Err(e) && e is Serialization ==> bundle_of_bytes(
                old(self).persistence_format,
                key_view(old(self).encryption_key),
                data@,
            ) is None,
            r matches Err(e) && (e is SaltMismatch || e is Decryption || e
                is Serialization) ==> *final(self) == *old(self),
            old(self).encryption_key is None && bundle_of_bytes(
                old(self).persistence_format,
                None,
                data@,
            ) is Some ==> r is Ok,
            r matches Err(e) && e is Storage ==> old(self).encryption_key is Some,
    {
        let (session, events): (Session, Vec<Event>) = match &self.encryption_key {
            Some(key) => {
                match read_wrapper_doc(self.persistence_format, data) {
                    Some((wsalt, wnonce, wct)) => {
                        let own_salt = match &self.encryption_salt {
                            Some(sv) => sv,
                            None => {
                                return Err(
                                    TimeLoopError::Storage(
                                        String::from_str("missing salt for encrypted storage"),
                                    ),
                                );
                            },
                        };
                        if !bytes_eq(&wsalt, own_salt) {
                            return Err(
                                TimeLoopError::SaltMismatch(
                                    String::from_str(
                                        "bundle was exported under a different salt",
                                    ),
                                ),
                            );
                        }
                        if wnonce.len() != 24 {
                            return Err(
                                TimeLoopError::Decryption(
                                    String::from_str("malformed nonce"),
                                ),
                            );
                        }
                        let plain = match try_decrypt(
                            key,
                            wnonce.as_slice(),
                            wct.as_slice(),
                        ) {
                            Some(p) => p,
                            None => {
                                return Err(
                                    TimeLoopError::Decryption(
                                        String::from_str(
                                            "invalid passphrase or corrupted bundle",
                                        ),
                                    ),
                                );
                            },
                        };
                        let doc = match self.persistence_format {
                            PersistenceFormat::Binary => parse_doc_bin(plain.as_slice()),
                            PersistenceFormat::Text => parse_doc_text(plain.as_slice()),
                        };
                        match doc {
                            Some(d) => {
                                match doc_to_bundle(&d) {
                                    Some(pair) => pair,
                                    None => {
                                        return Err(
                                            TimeLoopError::Serialization(
                                                String::from_str("not an export bundle"),
                                            ),
                                        );
                                    },
                                }
                            },
                            None => {
                                return Err(
                                    TimeLoopError::Serialization(
                                        String::from_str("unreadable bundle"),
                                    ),
                                );
                            },
                        }
                    },
                    None => {
                        return Err(
                            TimeLoopError::Serialization(
                                String::from_str("not an encrypted bundle"),
                            ),
                        );
                    },
                }
            },
            None => {
                let doc = match self.persistence_format {
                    PersistenceFormat::Binary => parse_doc_bin(data.as_slice()),
                    PersistenceFormat::Text => parse_doc_text(data.as_slice()),
                };
                match doc {
                    Some(d) => {
                        match doc_to_bundle(&d) {
                            Some(pair) => pair,
                            None => {
                                return Err(
                                    TimeLoopError::Serialization(
                                        String::from_str("not an export bundle"),
                                    ),
                                );
                            },
                        }
                    },
                    None => {
                        return Err(
                            TimeLoopError::Serialization(
                                String::from_str("unreadable bundle"),
                            ),
                        );
                    },
                }
            },
        };
        let id = session.id.clone();
        let ghost mid_sessions = upsert_session_view(
            session_views(old(self).state.sessions@),
            session@,
        );
        match self.store_session(&session) {
            Ok(_) => {},
            Err(e) => {
                return Err(e);
            },
        }
        let n = events.len();
        let mut i: usize = 0;
        proof {
            assert(event_views(events@).skip(0) =~= event_views(events@));
        }
        while i < n
            invariant
                i <= n,
                n == events@.len(),
                self.wf(),
                session_views(self.state.sessions@) == mid_sessions,
                self.state.branches@ == old(self).state.branches@,
                self.encryption_key == old(self).encryption_key,
                fold_upsert_events(
                    event_views(old(self).state.events@),
                    event_views(events@),
                ) == fold_upsert_events(
                    event_views(self.state.events@),
                    event_views(events@).skip(i as int),
                ),
                old(self).encryption_key is Some ==> (wrapper_of_snapshot(
                    old(self).persistence_format,
                    data@,
                ) matches Some(w) && (old(self).encryption_salt matches Some(s2) && w.0
                    == s2@)),
            decreases n - i,
        {
            proof {
                assert(event_views(events@).skip(i as int)[0] == events@[i as int]@);
                assert(event_views(events@).skip(i as int).drop_first() =~= event_views(
                    events@,
                ).skip(i + 1));
            }
            match self.store_event(&events[i]) {
                Ok(_) => {},
                Err(e) => {
                    return Err(e);
                },
            }
            i = i + 1;
        }
        proof {
            assert(event_views(events@).skip(n as int) =~= Seq::<EventV>::empty());
        }
        Ok(id)
    }

    /// A plaintext snapshot of the current state, in the handle's
    /// encoding, for backup.
    pub fn backup_bytes(&self) -> (r: Vec<u8>)
        requires
            self.wf(),
        ensures
            snapshot_state_of(self.persistence_format, None, r@) == Some(
                state_view(self.state),
            ),
    {
        snapshot_doc_bytes(&self.state, self.persistence_format)
    }

    /// Replace the in-memory state with a backup snapshot, detecting its
    /// encoding from the bytes (the two encodings' leading magic bytes are
    /// disjoint), and persist the restored state.
    pub fn restore_from_bytes(&mut self, data: &Vec<u8>) -> (r: TlResult<()>)
        requires
            old(self).wf(),
        ensures
            final(self).wf(),
            (r matches Err(e) && e is Serialization) <==> detected_snapshot(data@) is None,
            r matches Err(e) && e is Serialization ==> *final(self) == *old(self),
            r is Err <==> (detected_snapshot(data@) is None || (old(self).encryption_key
                is Some && (detected_snapshot(data@) matches Some(sv) && snapshot_plain_of(
                old(self).persistence_format,
                sv,
            ).len() >= aead_max_plaintext_len()))),
            r matches Err(e) ==> e is Serialization || e is Storage,
            r is Ok ==> final(self).persisted && (detected_snapshot(data@) matches Some(sv)
                && state_view(final(self).state) == sv),
    {
        let loaded: StoreState = match parse_doc_bin(data.as_slice()) {
            Some(d) => {
                match doc_to_state(&d) {
                    Some(st) => st,
                    None => {
                        return Err(
                            TimeLoopError::Serialization(
                                String::from_str("not a snapshot document"),
                            ),
                        );
                    },
                }
            },
            None => {
                match parse_doc_text(data.as_slice()) {
                    Some(d) => {
                        match doc_to_state(&d) {
                            Some(st) => st,
                            None => {
                                return Err(
                                    TimeLoopError::Serialization(
                                        String::from_str("not a snapshot document"),
                                    ),
                                );
                            },
                        }
                    },
                    None => {
                        return Err(
                            TimeLoopError::Serialization(
                                String::from_str("unreadable backup"),
                            ),
                        );
                    },
                }
            },
        };
        self.persisted = false;
        self.state = loaded;
        self.write_snapshot_now()
    }
}

impl Storage {
    /// Give the file image up, for a shell that mirrors it to disk or for
    /// reopening elsewhere.
    pub fn into_files(self) -> (r: StorageFiles)
        ensures
            r == self.files,
    {
        self.files
    }
}

/// A log whose records replay without any key holds only plain event
/// records, so it replays identically under every key.
pub proof fn lemma_replay_any_key(
    recs: Seq<Seq<FieldView>>,
    key: Option<Seq<u8>>,
    base: Seq<EventV>,
)
    requires
        replay_events(recs, None, base) is Some,
    ensures
        replay_events(recs, key, base) == replay_events(recs, None, base),
    decreases recs.len(),
{
    if recs.len() > 0 {
        assert(log_event_of(recs[0], None) is Some);
        assert(parse_event_rec(recs[0]) is Some);
        assert(log_event_of(recs[0], key) == log_event_of(recs[0], None));
        lemma_replay_any_key(
            recs.drop_first(),
            key,
            upsert_event_view(base, log_event_of(recs[0], None).unwrap()),
        );
    }
}

/// The two encodings are told apart by their first byte, so no byte
/// string is a document of both.
pub proof fn lemma_doc_encodings_disjoint(b: Seq<u8>)
    ensures
        dec_doc_bin(b) is Some ==> dec_doc_text(b) is None,
        dec_doc_text(b) is Some ==> dec_doc_bin(b) is None,
{
    if dec_doc_bin(b) is Some {
        assert(b.subrange(0, 4) == crate::codec::bin_magic());
        assert(b[0] == 212) by {
            assert(b.subrange(0, 4)[0] == b[0]);
        }
        if b.len() >= 4 && b.subrange(0, 4) == crate::text::text_magic() {
            assert(b[0] == 116) by {
                assert(b.subrange(0, 4)[0] == b[0]);
            }
        }
    }
    if dec_doc_text(b) is Some {
        assert(b.subrange(0, 4) == crate::text::text_magic());
        assert(b[0] == 116) by {
            assert(b.subrange(0, 4)[0] == b[0]);
        }
        if b.len() >= 12 && b.subrange(0, 4) == crate::codec::bin_magic() {
            assert(b[0] == 212) by {
                assert(b.subrange(0, 4)[0] == b[0]);
            }
        }
    }
}

/// What backup bytes hold, whichever encoding they carry: the
/// compact-binary reading when its magic matches, else the
/// structured-text reading.
pub open spec fn detected_snapshot(b: Seq<u8>) -> Option<StateView> {
    match dec_doc_bin(b) {
        Some(d) => parse_snapshot_doc(d),
        None => match dec_doc_text(b) {
            Some(d) => parse_snapshot_doc(d),
            None => None,
        },
    }
}

} // verus!
