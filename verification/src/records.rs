//! Entities as records.
//!
//! Every session, branch and event travels as one record whose first field
//! is a kind tag; a snapshot document is a header record followed by the
//! state's records; an export bundle is a header, one session and its
//! events; an encrypted wrapper is a single record carrying salt, nonce and
//! ciphertext.  Signed numbers travel as their two's-complement image in an
//! unsigned field.

use vstd::prelude::*;
use crate::codec::{FieldVal, FieldView, field_views, doc_views};
use crate::state::{StoreState, event_views};
use crate::event::{Event, EventV, EventType, EventTypeV, FileChangeType, FileChangeTypeV};
use crate::session::{Session, SessionV};
use crate::branch::{TimelineBranch, TimelineBranchV};

verus! {

/// Record kind tags.
pub open spec fn tag_header() -> u64 {
    0
}

pub open spec fn tag_session() -> u64 {
    1
}

pub open spec fn tag_branch() -> u64 {
    2
}

pub open spec fn tag_event() -> u64 {
    3
}

pub open spec fn tag_wrapper() -> u64 {
    4
}

pub open spec fn tag_enc_event() -> u64 {
    5
}

/// Document kinds carried by the header record.
pub open spec fn doc_kind_snapshot() -> u64 {
    1
}

pub open spec fn doc_kind_bundle() -> u64 {
    2
}

pub open spec fn doc_kind_wrapper() -> u64 {
    3
}

/// The header record of a document.
pub open spec fn header_record(kind: u64) -> Seq<FieldView> {
    seq![FieldView::U(tag_header()), FieldView::U(kind)]
}

/// An `i64` as the unsigned field it travels in.
pub open spec fn u_of_i64(x: i64) -> u64 {
    x as u64
}

/// An `i32` as the unsigned field it travels in.
pub open spec fn u_of_i32(x: i32) -> u64 {
    x as u64
}

/// Casting an `i64` through `u64` is lossless.
pub proof fn lemma_i64_cast(x: i64)
    ensures
        (x as u64) as i64 == x,
{
    assert((x as u64) as i64 == x) by (bit_vector);
}

/// Casting an `i32` through `u64` is lossless.
pub proof fn lemma_i32_cast(x: i32)
    ensures
        (x as u64) as i32 == x,
{
    assert((x as u64) as i32 == x) by (bit_vector);
}

/// An optional string as a presence flag and a value, empty when absent.
pub open spec fn opt_str_fields(o: Option<Seq<char>>) -> Seq<FieldView> {
    match o {
        Some(cs) => seq![FieldView::U(1u64), FieldView::S(cs)],
        None => seq![FieldView::U(0u64), FieldView::S(Seq::<char>::empty())],
    }
}

/// An optional timestamp as a presence flag and a value, zero when absent.
pub open spec fn opt_i64_fields(o: Option<i64>) -> Seq<FieldView> {
    match o {
        Some(x) => seq![FieldView::U(1u64), FieldView::U(u_of_i64(x))],
        None => seq![FieldView::U(0u64), FieldView::U(0u64)],
    }
}

/// The record of one session.
pub open spec fn session_record(s: SessionV) -> Seq<FieldView> {
    seq![
        FieldView::U(tag_session()),
        FieldView::S(s.id),
        FieldView::S(s.name),
        FieldView::U(u_of_i64(s.created_at)),
    ] + opt_i64_fields(s.ended_at) + opt_str_fields(s.parent_session_id) + opt_str_fields(
        s.branch_name,
    )
}

/// The record of one branch.
pub open spec fn branch_record(b: TimelineBranchV) -> Seq<FieldView> {
    seq![
        FieldView::U(tag_branch()),
        FieldView::S(b.id),
        FieldView::S(b.name),
        FieldView::S(b.parent_session_id),
        FieldView::S(b.branch_point_event_id),
        FieldView::U(u_of_i64(b.created_at)),
    ] + opt_str_fields(b.description)
}

/// The variant fields of one event.
pub open spec fn event_type_fields(t: EventTypeV) -> Seq<FieldView> {
    match t {
        EventTypeV::KeyPress { key, timestamp } => seq![
            FieldView::U(0u64),
            FieldView::S(key),
            FieldView::U(u_of_i64(timestamp)),
        ],
        EventTypeV::Command { command, output, exit_code, working_directory, timestamp } => seq![
            FieldView::U(1u64),
            FieldView::S(command),
            FieldView::S(output),
            FieldView::U(u_of_i32(exit_code)),
            FieldView::S(working_directory),
            FieldView::U(u_of_i64(timestamp)),
        ],
        EventTypeV::FileChange { path, change_type, content_hash, timestamp } => seq![
            FieldView::U(2u64),
            FieldView::S(path),
            FieldView::U(
                match change_type {
                    FileChangeTypeV::Created => 0u64,
                    FileChangeTypeV::Modified => 1u64,
                    FileChangeTypeV::Deleted => 2u64,
                    FileChangeTypeV::Renamed { .. } => 3u64,
                },
            ),
            FieldView::S(
                match change_type {
                    FileChangeTypeV::Renamed { old_path } => old_path,
                    _ => Seq::<char>::empty(),
                },
            ),
        ] + opt_str_fields(content_hash) + seq![FieldView::U(u_of_i64(timestamp))],
        EventTypeV::TerminalState { cursor_position, screen_size, timestamp } => seq![
            FieldView::U(3u64),
            FieldView::U(cursor_position.0 as u64),
            FieldView::U(cursor_position.1 as u64),
            FieldView::U(screen_size.0 as u64),
            FieldView::U(screen_size.1 as u64),
            FieldView::U(u_of_i64(timestamp)),
        ],
        EventTypeV::SessionMetadata { name, created_at, timestamp } => seq![
            FieldView::U(4u64),
            FieldView::S(name),
            FieldView::U(u_of_i64(created_at)),
            FieldView::U(u_of_i64(timestamp)),
        ],
    }
}

/// The record of one event.
pub open spec fn event_record(e: EventV) -> Seq<FieldView> {
    seq![
        FieldView::U(tag_event()),
        FieldView::S(e.id),
        FieldView::S(e.session_id),
        FieldView::U(e.sequence_number),
        FieldView::U(u_of_i64(e.timestamp)),
    ] + event_type_fields(e.event_type)
}

/// The single record of an encrypted wrapper document.
pub open spec fn wrapper_record(salt: Seq<u8>, nonce: Seq<u8>, ct: Seq<u8>) -> Seq<
    FieldView,
> {
    seq![
        FieldView::U(tag_wrapper()),
        FieldView::B(salt),
        FieldView::B(nonce),
        FieldView::B(ct),
    ]
}

/// One encrypted append-only log record.
pub open spec fn enc_event_record(nonce: Seq<u8>, ct: Seq<u8>) -> Seq<FieldView> {
    seq![FieldView::U(tag_enc_event()), FieldView::B(nonce), FieldView::B(ct)]
}

// ----- spec parsers, one per record shape -----

/// Parse two fields as an optional string.
pub open spec fn parse_opt_str(flag: FieldView, val: FieldView) -> Option<
    Option<Seq<char>>,
> {
    match (flag, val) {
        (FieldView::U(1u64), FieldView::S(cs)) => Some(Some(cs)),
        (FieldView::U(0u64), FieldView::S(cs)) => if cs.len() == 0 {
            Some(None)
        } else {
            None
        },
        _ => None,
    }
}

/// Parse two fields as an optional timestamp.
pub open spec fn parse_opt_i64(flag: FieldView, val: FieldView) -> Option<Option<i64>> {
    match (flag, val) {
        (FieldView::U(1u64), FieldView::U(x)) => Some(Some(x as i64)),
        (FieldView::U(0u64), FieldView::U(x)) => if x == 0 {
            Some(None)
        } else {
            None
        },
        _ => None,
    }
}

/// What a session record parses to.
pub open spec fn parse_session_rec(r: Seq<FieldView>) -> Option<SessionV> {
    if r.len() == 10 && r[0] == FieldView::U(tag_session()) {
        match (r[1], r[2], r[3]) {
            (FieldView::S(id), FieldView::S(name), FieldView::U(created)) => {
                match (
                    parse_opt_i64(r[4], r[5]),
                    parse_opt_str(r[6], r[7]),
                    parse_opt_str(r[8], r[9]),
                ) {
                    (Some(ended), Some(parent), Some(bname)) => Some(
                        SessionV {
                            id: id,
                            name: name,
                            created_at: created as i64,
                            ended_at: ended,
                            parent_session_id: parent,
                            branch_name: bname,
                        },
                    ),
                    _ => None,
                }
            },
            _ => None,
        }
    } else {
        None
    }
}

/// What a branch record parses to.
pub open spec fn parse_branch_rec(r: Seq<FieldView>) -> Option<TimelineBranchV> {
    if r.len() == 8 && r[0] == FieldView::U(tag_branch()) {
        match (r[1], r[2], r[3], r[4], r[5]) {
            (
                FieldView::S(id),
                FieldView::S(name),
                FieldView::S(psid),
                FieldView::S(bpid),
                FieldView::U(created),
            ) => {
                match parse_opt_str(r[6], r[7]) {
                    Some(desc) => Some(
                        TimelineBranchV {
                            id: id,
                            name: name,
                            parent_session_id: psid,
                            branch_point_event_id: bpid,
                            created_at: created as i64,
                            description: desc,
                        },
                    ),
                    _ => None,
                }
            },
            _ => None,
        }
    } else {
        None
    }
}

/// What the variant fields of an event parse to.  `r` holds the fields
/// from position five on.
pub open spec fn parse_event_type_fields(r: Seq<FieldView>) -> Option<EventTypeV> {
    if r.len() >= 1 {
        match r[0] {
            FieldView::U(0u64) => if r.len() == 3 {
                match (r[1], r[2]) {
                    (FieldView::S(key), FieldView::U(ts)) => Some(
                        EventTypeV::KeyPress { key: key, timestamp: ts as i64 },
                    ),
                    _ => None,
                }
            } else {
                None
            },
            FieldView::U(1u64) => if r.len() == 6 {
                match (r[1], r[2], r[3], r[4], r[5]) {
                    (
                        FieldView::S(command),
                        FieldView::S(output),
                        FieldView::U(exit),
                        FieldView::S(wd),
                        FieldView::U(ts),
                    ) => Some(
                        EventTypeV::Command {
                            command: command,
                            output: output,
                            exit_code: exit as i32,
                            working_directory: wd,
                            timestamp: ts as i64,
                        },
                    ),
                    _ => None,
                }
            } else {
                None
            },
            FieldView::U(2u64) => if r.len() == 7 {
                match (r[1], r[2], r[3], parse_opt_str(r[4], r[5]), r[6]) {
                    (
                        FieldView::S(path),
                        FieldView::U(fck),
                        FieldView::S(old_path),
                        Some(hash),
                        FieldView::U(ts),
                    ) => {
                        let ct = if fck == 0 {
                            if old_path.len() == 0 {
                                Some(FileChangeTypeV::Created)
                            } else {
                                None
                            }
                        } else if fck == 1 {
                            if old_path.len() == 0 {
                                Some(FileChangeTypeV::Modified)
                            } else {
                                None
                            }
                        } else if fck == 2 {
                            if old_path.len() == 0 {
                                Some(FileChangeTypeV::Deleted)
                            } else {
                                None
                            }
                        } else if fck == 3 {
                            Some(FileChangeTypeV::Renamed { old_path: old_path })
                        } else {
                            None
                        };
                        match ct {
                            Some(c) => Some(
                                EventTypeV::FileChange {
                                    path: path,
                                    change_type: c,
                                    content_hash: hash,
                                    timestamp: ts as i64,
                                },
                            ),
                            None => None,
                        }
                    },
                    _ => None,
                }
            } else {
                None
            },
            FieldView::U(3u64) => if r.len() == 6 {
                match (r[1], r[2], r[3], r[4], r[5]) {
                    (
                        FieldView::U(cx),
                        FieldView::U(cy),
                        FieldView::U(sx),
                        FieldView::U(sy),
                        FieldView::U(ts),
                    ) => if cx <= 0xFFFF && cy <= 0xFFFF && sx <= 0xFFFF && sy <= 0xFFFF {
                        Some(
                            EventTypeV::TerminalState {
                                cursor_position: (cx as u16, cy as u16),
                                screen_size: (sx as u16, sy as u16),
                                timestamp: ts as i64,
                            },
                        )
                    } else {
                        None
                    },
                    _ => None,
                }
            } else {
                None
            },
            FieldView::U(4u64) => if r.len() == 4 {
                match (r[1], r[2], r[3]) {
                    (FieldView::S(name), FieldView::U(created), FieldView::U(ts)) => Some(
                        EventTypeV::SessionMetadata {
                            name: name,
                            created_at: created as i64,
                            timestamp: ts as i64,
                        },
                    ),
                    _ => None,
                }
            } else {
                None
            },
            _ => None,
        }
    } else {
        None
    }
}

/// What an event record parses to.
pub open spec fn parse_event_rec(r: Seq<FieldView>) -> Option<EventV> {
    if r.len() >= 5 && r[0] == FieldView::U(tag_event()) {
        match (r[1], r[2], r[3], r[4]) {
            (
                FieldView::S(id),
                FieldView::S(sid),
                FieldView::U(seqno),
                FieldView::U(ts),
            ) => {
                match parse_event_type_fields(r.skip(5)) {
                    Some(t) => Some(
                        EventV {
                            id: id,
                            session_id: sid,
                            event_type: t,
                            sequence_number: seqno,
                            timestamp: ts as i64,
                        },
                    ),
                    None => None,
                }
            },
            _ => None,
        }
    } else {
        None
    }
}

/// What a wrapper record parses to.
pub open spec fn parse_wrapper_rec(r: Seq<FieldView>) -> Option<(Seq<u8>, Seq<u8>, Seq<u8>)> {
    if r.len() == 4 && r[0] == FieldView::U(tag_wrapper()) {
        match (r[1], r[2], r[3]) {
            (FieldView::B(salt), FieldView::B(nonce), FieldView::B(ct)) => Some(
                (salt, nonce, ct),
            ),
            _ => None,
        }
    } else {
        None
    }
}

/// What an encrypted log record parses to.
pub open spec fn parse_enc_event_rec(r: Seq<FieldView>) -> Option<(Seq<u8>, Seq<u8>)> {
    if r.len() == 3 && r[0] == FieldView::U(tag_enc_event()) {
        match (r[1], r[2]) {
            (FieldView::B(nonce), FieldView::B(ct)) => Some((nonce, ct)),
            _ => None,
        }
    } else {
        None
    }
}

/// A session record parses back to the session.
pub proof fn lemma_parse_session_record(s: SessionV)
    ensures
        parse_session_rec(session_record(s)) == Some(s),
{
    lemma_i64_cast(s.created_at);
    match s.ended_at {
        Some(x) => {
            lemma_i64_cast(x);
        },
        None => {},
    }
}

/// A branch record parses back to the branch.
pub proof fn lemma_parse_branch_record(b: TimelineBranchV)
    ensures
        parse_branch_rec(branch_record(b)) == Some(b),
{
    lemma_i64_cast(b.created_at);
}

/// An event record parses back to the event.
pub proof fn lemma_parse_event_record(e: EventV)
    ensures
        parse_event_rec(event_record(e)) == Some(e),
{
    lemma_i64_cast(e.timestamp);
    let r = event_record(e);
    assert(r.skip(5) =~= event_type_fields(e.event_type));
    match e.event_type {
        EventTypeV::KeyPress { key, timestamp } => {
            lemma_i64_cast(timestamp);
        },
        EventTypeV::Command { command, output, exit_code, working_directory, timestamp } => {
            lemma_i64_cast(timestamp);
            lemma_i32_cast(exit_code);
        },
        EventTypeV::FileChange { path, change_type, content_hash, timestamp } => {
            lemma_i64_cast(timestamp);
        },
        EventTypeV::TerminalState { cursor_position, screen_size, timestamp } => {
            lemma_i64_cast(timestamp);
        },
        EventTypeV::SessionMetadata { name, created_at, timestamp } => {
            lemma_i64_cast(timestamp);
            lemma_i64_cast(created_at);
        },
    }
}

// ----- exec converters -----

/// Build the record of one session.
pub fn session_to_fields(s: &Session) -> (r: Vec<FieldVal>)
    ensures
        field_views(r@) == session_record(s@),
{
    let mut r: Vec<FieldVal> = Vec::new();
    r.push(FieldVal::U(1));
    r.push(FieldVal::S(s.id.clone()));
    r.push(FieldVal::S(s.name.clone()));
    r.push(FieldVal::U(s.created_at as u64));
    match &s.ended_at {
        Some(x) => {
            r.push(FieldVal::U(1));
            r.push(FieldVal::U(*x as u64));
        },
        None => {
            r.push(FieldVal::U(0));
            r.push(FieldVal::U(0));
        },
    }
    match &s.parent_session_id {
        Some(p) => {
            r.push(FieldVal::U(1));
            r.push(FieldVal::S(p.clone()));
        },
        None => {
            r.push(FieldVal::U(0));
            r.push(FieldVal::S(String::new()));
        },
    }
    match &s.branch_name {
        Some(b) => {
            r.push(FieldVal::U(1));
            r.push(FieldVal::S(b.clone()));
        },
        None => {
            r.push(FieldVal::U(0));
            r.push(FieldVal::S(String::new()));
        },
    }
    proof {
        assert(field_views(r@) =~= session_record(s@));
    }
    r
}

/// Build the record of one branch.
pub fn branch_to_fields(b: &TimelineBranch) -> (r: Vec<FieldVal>)
    ensures
        field_views(r@) == branch_record(b@),
{
    let mut r: Vec<FieldVal> = Vec::new();
    r.push(FieldVal::U(2));
    r.push(FieldVal::S(b.id.clone()));
    r.push(FieldVal::S(b.name.clone()));
    r.push(FieldVal::S(b.parent_session_id.clone()));
    r.push(FieldVal::S(b.branch_point_event_id.clone()));
    r.push(FieldVal::U(b.created_at as u64));
    match &b.description {
        Some(d) => {
            r.push(FieldVal::U(1));
            r.push(FieldVal::S(d.clone()));
        },
        None => {
            r.push(FieldVal::U(0));
            r.push(FieldVal::S(String::new()));
        },
    }
    proof {
        assert(field_views(r@) =~= branch_record(b@));
    }
    r
}

/// Build the record of one event.
pub fn event_to_fields(e: &Event) -> (r: Vec<FieldVal>)
    ensures
        field_views(r@) == event_record(e@),
{
    let mut r: Vec<FieldVal> = Vec::new();
    r.push(FieldVal::U(3));
    r.push(FieldVal::S(e.id.clone()));
    r.push(FieldVal::S(e.session_id.clone()));
    r.push(FieldVal::U(e.sequence_number));
    r.push(FieldVal::U(e.timestamp as u64));
    match &e.event_type {
        EventType::KeyPress { key, timestamp } => {
            r.push(FieldVal::U(0));
            r.push(FieldVal::S(key.clone()));
            r.push(FieldVal::U(*timestamp as u64));
        },
        EventType::Command { command, output, exit_code, working_directory, timestamp } => {
            r.push(FieldVal::U(1));
            r.push(FieldVal::S(command.clone()));
            r.push(FieldVal::S(output.clone()));
            r.push(FieldVal::U(*exit_code as u64));
            r.push(FieldVal::S(working_directory.clone()));
            r.push(FieldVal::U(*timestamp as u64));
        },
        EventType::FileChange { path, change_type, content_hash, timestamp } => {
            r.push(FieldVal::U(2));
            r.push(FieldVal::S(path.clone()));
            match change_type {
                FileChangeType::Created => {
                    r.push(FieldVal::U(0));
                    r.push(FieldVal::S(String::new()));
                },
                FileChangeType::Modified => {
                    r.push(FieldVal::U(1));
                    r.push(FieldVal::S(String::new()));
                },
                FileChangeType::Deleted => {
                    r.push(FieldVal::U(2));
                    r.push(FieldVal::S(String::new()));
                },
                FileChangeType::Renamed { old_path } => {
                    r.push(FieldVal::U(3));
                    r.push(FieldVal::S(old_path.clone()));
                },
            }
            match content_hash {
                Some(h) => {
                    r.push(FieldVal::U(1));
                    r.push(FieldVal::S(h.clone()));
                },
                None => {
                    r.push(FieldVal::U(0));
                    r.push(FieldVal::S(String::new()));
                },
            }
            r.push(FieldVal::U(*timestamp as u64));
        },
        EventType::TerminalState { cursor_position, screen_size, timestamp } => {
            r.push(FieldVal::U(3));
            r.push(FieldVal::U(cursor_position.0 as u64));
            r.push(FieldVal::U(cursor_position.1 as u64));
            r.push(FieldVal::U(screen_size.0 as u64));
            r.push(FieldVal::U(screen_size.1 as u64));
            r.push(FieldVal::U(*timestamp as u64));
        },
        EventType::SessionMetadata { name, created_at, timestamp } => {
            r.push(FieldVal::U(4));
            r.push(FieldVal::S(name.clone()));
            r.push(FieldVal::U(*created_at as u64));
            r.push(FieldVal::U(*timestamp as u64));
        },
    }
    proof {
        assert(field_views(r@).skip(5) =~= event_type_fields(e@.event_type));
        assert(field_views(r@) =~= event_record(e@));
    }
    r
}

/// Parse one session record.
pub fn fields_to_session(r: &Vec<FieldVal>) -> (res: Option<Session>)
    ensures
        match (res, parse_session_rec(field_views(r@))) {
            (Some(s), Some(sv)) => s@ == sv,
            (None, None) => true,
            _ => false,
        },
{
    proof {
        assert(forall|k: int|
            0 <= k < r@.len() ==> #[trigger] field_views(r@)[k] == r@[k]@);
    }
    if r.len() != 10 {
        return None;
    }
    let tag: u64 = match &r[0] {
        FieldVal::U(x) => *x,
        _ => {
            return None;
        },
    };
    if tag != 1 {
        return None;
    }
    let id = match &r[1] {
        FieldVal::S(v) => v.clone(),
        _ => {
            return None;
        },
    };
    let name = match &r[2] {
        FieldVal::S(v) => v.clone(),
        _ => {
            return None;
        },
    };
    let created: u64 = match &r[3] {
        FieldVal::U(x) => *x,
        _ => {
            return None;
        },
    };
    let eflag: u64 = match &r[4] {
        FieldVal::U(x) => *x,
        _ => {
            return None;
        },
    };
    let eval: u64 = match &r[5] {
        FieldVal::U(x) => *x,
        _ => {
            return None;
        },
    };
    let ended_at: Option<i64> = if eflag == 1 {
        Some(eval as i64)
    } else if eflag == 0 && eval == 0 {
        None
    } else {
        return None;
    };
    let pflag: u64 = match &r[6] {
        FieldVal::U(x) => *x,
        _ => {
            return None;
        },
    };
    let pval = match &r[7] {
        FieldVal::S(v) => v,
        _ => {
            return None;
        },
    };
    let parent_session_id: Option<String> = if pflag == 1 {
        Some(pval.clone())
    } else if pflag == 0 && pval.as_str().unicode_len() == 0 {
        None
    } else {
        return None;
    };
    let bflag: u64 = match &r[8] {
        FieldVal::U(x) => *x,
        _ => {
            return None;
        },
    };
    let bval = match &r[9] {
        FieldVal::S(v) => v,
        _ => {
            return None;
        },
    };
    let branch_name: Option<String> = if bflag == 1 {
        Some(bval.clone())
    } else if bflag == 0 && bval.as_str().unicode_len() == 0 {
        None
    } else {
        return None;
    };
    Some(
        Session {
            id: id,
            name: name,
            created_at: created as i64,
            ended_at: ended_at,
            parent_session_id: parent_session_id,
            branch_name: branch_name,
        },
    )
}

/// Parse one branch record.
pub fn fields_to_branch(r: &Vec<FieldVal>) -> (res: Option<TimelineBranch>)
    ensures
        match (res, parse_branch_rec(field_views(r@))) {
            (Some(b), Some(bv)) => b@ == bv,
            (None, None) => true,
            _ => false,
        },
{
    proof {
        assert(forall|k: int|
            0 <= k < r@.len() ==> #[trigger] field_views(r@)[k] == r@[k]@);
    }
    if r.len() != 8 {
        return None;
    }
    let tag: u64 = match &r[0] {
        FieldVal::U(x) => *x,
        _ => {
            return None;
        },
    };
    if tag != 2 {
        return None;
    }
    let id = match &r[1] {
        FieldVal::S(v) => v.clone(),
        _ => {
            return None;
        },
    };
    let name = match &r[2] {
        FieldVal::S(v) => v.clone(),
        _ => {
            return None;
        },
    };
    let psid = match &r[3] {
        FieldVal::S(v) => v.clone(),
        _ => {
            return None;
        },
    };
    let bpid = match &r[4] {
        FieldVal::S(v) => v.clone(),
        _ => {
            return None;
        },
    };
    let created: u64 = match &r[5] {
        FieldVal::U(x) => *x,
        _ => {
            return None;
        },
    };
    let dflag: u64 = match &r[6] {
        FieldVal::U(x) => *x,
        _ => {
            return None;
        },
    };
    let dval = match &r[7] {
        FieldVal::S(v) => v,
        _ => {
            return None;
        },
    };
    let description: Option<String> = if dflag == 1 {
        Some(dval.clone())
    } else if dflag == 0 && dval.as_str().unicode_len() == 0 {
        None
    } else {
        return None;
    };
    Some(
        TimelineBranch {
            id: id,
            name: name,
            parent_session_id: psid,
            branch_point_event_id: bpid,
            created_at: created as i64,
            description: description,
        },
    )
}

/// Parse one event record.
pub fn fields_to_event(r: &Vec<FieldVal>) -> (res: Option<Event>)
    ensures
        match (res, parse_event_rec(field_views(r@))) {
            (Some(e), Some(ev)) => e@ == ev,
            (None, None) => true,
            _ => false,
        },
{
    proof {
        assert(forall|k: int|
            0 <= k < r@.len() ==> #[trigger] field_views(r@)[k] == r@[k]@);
        assert(forall|k: int|
            5 <= k < r@.len() ==> field_views(r@).skip(5)[k - 5] == #[trigger] field_views(
                r@,
            )[k]);
    }
    if r.len() < 6 {
        return None;
    }
    let tag: u64 = match &r[0] {
        FieldVal::U(x) => *x,
        _ => {
            return None;
        },
    };
    if tag != 3 {
        return None;
    }
    let id = match &r[1] {
        FieldVal::S(v) => v.clone(),
        _ => {
            return None;
        },
    };
    let sid = match &r[2] {
        FieldVal::S(v) => v.clone(),
        _ => {
            return None;
        },
    };
    let seqno: u64 = match &r[3] {
        FieldVal::U(x) => *x,
        _ => {
            return None;
        },
    };
    let ts: u64 = match &r[4] {
        FieldVal::U(x) => *x,
        _ => {
            return None;
        },
    };
    let kind: u64 = match &r[5] {
        FieldVal::U(x) => *x,
        _ => {
            return None;
        },
    };
    let ghost tfields = field_views(r@).skip(5);
    proof {
        assert(tfields.len() == r@.len() - 5);
        assert(tfields[0] == field_views(r@)[5]);
    }
    let event_type: EventType = if kind == 0 {
        if r.len() != 8 {
            return None;
        }
        let key = match &r[6] {
            FieldVal::S(v) => v.clone(),
            _ => {
                return None;
            },
        };
        let kts: u64 = match &r[7] {
            FieldVal::U(x) => *x,
            _ => {
                return None;
            },
        };
        EventType::KeyPress { key: key, timestamp: kts as i64 }
    } else if kind == 1 {
        if r.len() != 11 {
            return None;
        }
        let command = match &r[6] {
            FieldVal::S(v) => v.clone(),
            _ => {
                return None;
            },
        };
        let output = match &r[7] {
            FieldVal::S(v) => v.clone(),
            _ => {
                return None;
            },
        };
        let exit: u64 = match &r[8] {
            FieldVal::U(x) => *x,
            _ => {
                return None;
            },
        };
        let wd = match &r[9] {
            FieldVal::S(v) => v.clone(),
            _ => {
                return None;
            },
        };
        let cts: u64 = match &r[10] {
            FieldVal::U(x) => *x,
            _ => {
                return None;
            },
        };
        EventType::Command {
            command: command,
            output: output,
            exit_code: exit as i32,
            working_directory: wd,
            timestamp: cts as i64,
        }
    } else if kind == 2 {
        if r.len() != 12 {
            return None;
        }
        let path = match &r[6] {
            FieldVal::S(v) => v.clone(),
            _ => {
                return None;
            },
        };
        let fck: u64 = match &r[7] {
            FieldVal::U(x) => *x,
            _ => {
                return None;
            },
        };
        let old_path = match &r[8] {
            FieldVal::S(v) => v,
            _ => {
                return None;
            },
        };
        let change_type: FileChangeType = if fck == 0 {
            if old_path.as_str().unicode_len() != 0 {
                return None;
            }
            FileChangeType::Created
        } else if fck == 1 {
            if old_path.as_str().unicode_len() != 0 {
                return None;
            }
            FileChangeType::Modified
        } else if fck == 2 {
            if old_path.as_str().unicode_len() != 0 {
                return None;
            }
            FileChangeType::Deleted
        } else if fck == 3 {
            FileChangeType::Renamed { old_path: old_path.clone() }
        } else {
            return None;
        };
        let hflag: u64 = match &r[9] {
            FieldVal::U(x) => *x,
            _ => {
                return None;
            },
        };
        let hval = match &r[10] {
            FieldVal::S(v) => v,
            _ => {
                return None;
            },
        };
        let content_hash: Option<String> = if hflag == 1 {
            Some(hval.clone())
        } else if hflag == 0 && hval.as_str().unicode_len() == 0 {
            None
        } else {
            return None;
        };
        let fts: u64 = match &r[11] {
            FieldVal::U(x) => *x,
            _ => {
                return None;
            },
        };
        EventType::FileChange {
            path: path,
            change_type: change_type,
            content_hash: content_hash,
            timestamp: fts as i64,
        }
    } else if kind == 3 {
        if r.len() != 11 {
            return None;
        }
        let cx: u64 = match &r[6] {
            FieldVal::U(x) => *x,
            _ => {
                return None;
            },
        };
        let cy: u64 = match &r[7] {
            FieldVal::U(x) => *x,
            _ => {
                return None;
            },
        };
        let sx: u64 = match &r[8] {
            FieldVal::U(x) => *x,
            _ => {
                return None;
            },
        };
        let sy: u64 = match &r[9] {
            FieldVal::U(x) => *x,
            _ => {
                return None;
            },
        };
        let tts: u64 = match &r[10] {
            FieldVal::U(x) => *x,
            _ => {
                return None;
            },
        };
        if !(cx <= 0xFFFF && cy <= 0xFFFF && sx <= 0xFFFF && sy <= 0xFFFF) {
            return None;
        }
        EventType::TerminalState {
            cursor_position: (cx as u16, cy as u16),
            screen_size: (sx as u16, sy as u16),
            timestamp: tts as i64,
        }
    } else if kind == 4 {
        if r.len() != 9 {
            return None;
        }
        let name = match &r[6] {
            FieldVal::S(v) => v.clone(),
            _ => {
                return None;
            },
        };
        let mcr: u64 = match &r[7] {
            FieldVal::U(x) => *x,
            _ => {
                return None;
            },
        };
        let mts: u64 = match &r[8] {
            FieldVal::U(x) => *x,
            _ => {
                return None;
            },
        };
        EventType::SessionMetadata {
            name: name,
            created_at: mcr as i64,
            timestamp: mts as i64,
        }
    } else {
        return None;
    };
    Some(
        Event {
            id: id,
            session_id: sid,
            event_type: event_type,
            sequence_number: seqno,
            timestamp: ts as i64,
        },
    )
}

// ----- the snapshot document -----

/// The view of a whole state: the three collections element-wise.
pub struct StateView {
    pub events: Seq<EventV>,
    pub sessions: Seq<SessionV>,
    pub branches: Seq<TimelineBranchV>,
}

/// The element-wise views of a session sequence.
pub open spec fn session_views(s: Seq<Session>) -> Seq<SessionV> {
    s.map_values(|x: Session| x@)
}

/// The element-wise views of a branch sequence.
pub open spec fn branch_views(s: Seq<TimelineBranch>) -> Seq<TimelineBranchV> {
    s.map_values(|x: TimelineBranch| x@)
}

/// The view of a state container.
pub open spec fn state_view(st: StoreState) -> StateView {
    StateView {
        events: event_views(st.events@),
        sessions: session_views(st.sessions@),
        branches: branch_views(st.branches@),
    }
}

/// The view of an empty state.
pub open spec fn empty_state_view() -> StateView {
    StateView {
        events: Seq::<EventV>::empty(),
        sessions: Seq::<SessionV>::empty(),
        branches: Seq::<TimelineBranchV>::empty(),
    }
}

/// Ids are pairwise distinct in each collection, at the view level.
pub open spec fn state_view_wf(sv: StateView) -> bool {
    &&& forall|i: int, j: int|
        0 <= i < j < sv.events.len() ==> sv.events[i].id != sv.events[j].id
    &&& forall|i: int, j: int|
        0 <= i < j < sv.sessions.len() ==> sv.sessions[i].id != sv.sessions[j].id
    &&& forall|i: int, j: int|
        0 <= i < j < sv.branches.len() ==> sv.branches[i].id != sv.branches[j].id
}

/// A well-formed container has a well-formed view.
pub proof fn lemma_state_view_wf(st: StoreState)
    requires
        st.wf(),
    ensures
        state_view_wf(state_view(st)),
{
    assert(forall|i: int|
        0 <= i < st.events@.len() ==> #[trigger] state_view(st).events[i]
            == st.events@[i]@);
    assert(forall|i: int|
        0 <= i < st.sessions@.len() ==> #[trigger] state_view(st).sessions[i]
            == st.sessions@[i]@);
    assert(forall|i: int|
        0 <= i < st.branches@.len() ==> #[trigger] state_view(st).branches[i]
            == st.branches@[i]@);
}

/// One record per session, in order.
pub open spec fn session_records(ss: Seq<SessionV>) -> Seq<Seq<FieldView>>
    decreases ss.len(),
{
    if ss.len() == 0 {
        Seq::empty()
    } else {
        seq![session_record(ss[0])] + session_records(ss.drop_first())
    }
}

/// One record per branch, in order.
pub open spec fn branch_records(bs: Seq<TimelineBranchV>) -> Seq<Seq<FieldView>>
    decreases bs.len(),
{
    if bs.len() == 0 {
        Seq::empty()
    } else {
        seq![branch_record(bs[0])] + branch_records(bs.drop_first())
    }
}

/// One record per event, in order.
pub open spec fn event_records(es: Seq<EventV>) -> Seq<Seq<FieldView>>
    decreases es.len(),
{
    if es.len() == 0 {
        Seq::empty()
    } else {
        seq![event_record(es[0])] + event_records(es.drop_first())
    }
}

/// The snapshot document of a state: header, sessions, branches, events.
pub open spec fn snapshot_records(sv: StateView) -> Seq<Seq<FieldView>> {
    seq![header_record(doc_kind_snapshot())] + session_records(sv.sessions)
        + branch_records(sv.branches) + event_records(sv.events)
}

/// A session id already present in a view sequence.
pub open spec fn has_session_id(ss: Seq<SessionV>, id: Seq<char>) -> bool {
    exists|i: int| 0 <= i < ss.len() && ss[i].id == id
}

/// A branch id already present in a view sequence.
pub open spec fn has_branch_id(bs: Seq<TimelineBranchV>, id: Seq<char>) -> bool {
    exists|i: int| 0 <= i < bs.len() && bs[i].id == id
}

/// An event id already present in a view sequence.
pub open spec fn has_event_id(es: Seq<EventV>, id: Seq<char>) -> bool {
    exists|i: int| 0 <= i < es.len() && es[i].id == id
}

/// Fold entity records into a state view, rejecting unknown shapes and
/// duplicate ids.
pub open spec fn parse_entity_records(d: Seq<Seq<FieldView>>, acc: StateView) -> Option<
    StateView,
>
    decreases d.len(),
{
    if d.len() == 0 {
        Some(acc)
    } else {
        let r = d[0];
        if r.len() >= 1 && r[0] == FieldView::U(tag_session()) {
            match parse_session_rec(r) {
                Some(sv) => if !has_session_id(acc.sessions, sv.id) {
                    parse_entity_records(
                        d.drop_first(),
                        StateView {
                            sessions: acc.sessions.push(sv),
                            events: acc.events,
                            branches: acc.branches,
                        },
                    )
                } else {
                    None
                },
                None => None,
            }
        } else if r.len() >= 1 && r[0] == FieldView::U(tag_branch()) {
            match parse_branch_rec(r) {
                Some(bv) => if !has_branch_id(acc.branches, bv.id) {
                    parse_entity_records(
                        d.drop_first(),
                        StateView {
                            branches: acc.branches.push(bv),
                            events: acc.events,
                            sessions: acc.sessions,
                        },
                    )
                } else {
                    None
                },
                None => None,
            }
        } else if r.len() >= 1 && r[0] == FieldView::U(tag_event()) {
            match parse_event_rec(r) {
                Some(ev) => if !has_event_id(acc.events, ev.id) {
                    parse_entity_records(
                        d.drop_first(),
                        StateView {
                            events: acc.events.push(ev),
                            sessions: acc.sessions,
                            branches: acc.branches,
                        },
                    )
                } else {
                    None
                },
                None => None,
            }
        } else {
            None
        }
    }
}

/// What a snapshot document parses to.
pub open spec fn parse_snapshot_doc(d: Seq<Seq<FieldView>>) -> Option<StateView> {
    if d.len() >= 1 && d[0] == header_record(doc_kind_snapshot()) {
        parse_entity_records(d.drop_first(), empty_state_view())
    } else {
        None
    }
}

/// Folding a run of session records appends them.
pub proof fn lemma_fold_sessions(ss: Seq<SessionV>, rest: Seq<Seq<FieldView>>, acc: StateView)
    requires
        forall|i: int, j: int| 0 <= i < j < ss.len() ==> ss[i].id != ss[j].id,
        forall|i: int| 0 <= i < ss.len() ==> !has_session_id(acc.sessions, #[trigger] ss[i].id),
    ensures
        parse_entity_records(session_records(ss) + rest, acc) == parse_entity_records(
            rest,
            StateView {
                sessions: acc.sessions + ss,
                events: acc.events,
                branches: acc.branches,
            },
        ),
    decreases ss.len(),
{
    if ss.len() == 0 {
        assert(session_records(ss) + rest =~= rest);
        assert(acc.sessions + ss =~= acc.sessions);
        assert(StateView {
            sessions: acc.sessions + ss,
            events: acc.events,
            branches: acc.branches,
        } == acc);
    } else {
        let s0 = ss[0];
        let d = session_records(ss) + rest;
        assert(d[0] == session_record(s0));
        lemma_parse_session_record(s0);
        assert(session_record(s0).len() == 10);
        assert(session_record(s0)[0] == FieldView::U(tag_session()));
        let acc2 = StateView {
            sessions: acc.sessions.push(s0),
            events: acc.events,
            branches: acc.branches,
        };
        assert(d.drop_first() =~= session_records(ss.drop_first()) + rest);
        assert(forall|i: int|
            0 <= i < ss.drop_first().len() ==> #[trigger] ss.drop_first()[i] == ss[i + 1]);
        assert(forall|i: int|
            0 <= i < ss.drop_first().len() ==> !has_session_id(
                acc2.sessions,
                #[trigger] ss.drop_first()[i].id,
            )) by {
            assert forall|i: int| 0 <= i < ss.drop_first().len() implies !has_session_id(
                acc2.sessions,
                #[trigger] ss.drop_first()[i].id,
            ) by {
                assert(ss.drop_first()[i] == ss[i + 1]);
                assert(!has_session_id(acc.sessions, ss[i + 1].id));
                assert(ss[i + 1].id != s0.id);
                assert(forall|k: int|
                    0 <= k < acc2.sessions.len() ==> #[trigger] acc2.sessions[k]
                        == if k < acc.sessions.len() {
                        acc.sessions[k]
                    } else {
                        s0
                    });
            }
        }
        lemma_fold_sessions(ss.drop_first(), rest, acc2);
        assert(acc2.sessions + ss.drop_first() =~= acc.sessions + ss);
    }
}

/// Folding a run of branch records appends them.
pub proof fn lemma_fold_branches(
    bs: Seq<TimelineBranchV>,
    rest: Seq<Seq<FieldView>>,
    acc: StateView,
)
    requires
        forall|i: int, j: int| 0 <= i < j < bs.len() ==> bs[i].id != bs[j].id,
        forall|i: int| 0 <= i < bs.len() ==> !has_branch_id(acc.branches, #[trigger] bs[i].id),
    ensures
        parse_entity_records(branch_records(bs) + rest, acc) == parse_entity_records(
            rest,
            StateView {
                branches: acc.branches + bs,
                events: acc.events,
                sessions: acc.sessions,
            },
        ),
    decreases bs.len(),
{
    if bs.len() == 0 {
        assert(branch_records(bs) + rest =~= rest);
        assert(acc.branches + bs =~= acc.branches);
        assert(StateView {
            branches: acc.branches + bs,
            events: acc.events,
            sessions: acc.sessions,
        } == acc);
    } else {
        let b0 = bs[0];
        let d = branch_records(bs) + rest;
        assert(d[0] == branch_record(b0));
        lemma_parse_branch_record(b0);
        assert(branch_record(b0).len() == 8);
        assert(branch_record(b0)[0] == FieldView::U(tag_branch()));
        let acc2 = StateView {
            branches: acc.branches.push(b0),
            events: acc.events,
            sessions: acc.sessions,
        };
        assert(d.drop_first() =~= branch_records(bs.drop_first()) + rest);
        assert(forall|i: int|
            0 <= i < bs.drop_first().len() ==> #[trigger] bs.drop_first()[i] == bs[i + 1]);
        assert forall|i: int| 0 <= i < bs.drop_first().len() implies !has_branch_id(
            acc2.branches,
            #[trigger] bs.drop_first()[i].id,
        ) by {
            assert(bs.drop_first()[i] == bs[i + 1]);
            assert(!has_branch_id(acc.branches, bs[i + 1].id));
            assert(bs[i + 1].id != b0.id);
            assert(forall|k: int|
                0 <= k < acc2.branches.len() ==> #[trigger] acc2.branches[k]
                    == if k < acc.branches.len() {
                    acc.branches[k]
                } else {
                    b0
                });
        }
        lemma_fold_branches(bs.drop_first(), rest, acc2);
        assert(acc2.branches + bs.drop_first() =~= acc.branches + bs);
    }
}

/// Folding a run of event records appends them.
pub proof fn lemma_fold_events(es: Seq<EventV>, rest: Seq<Seq<FieldView>>, acc: StateView)
    requires
        forall|i: int, j: int| 0 <= i < j < es.len() ==> es[i].id != es[j].id,
        forall|i: int| 0 <= i < es.len() ==> !has_event_id(acc.events, #[trigger] es[i].id),
    ensures
        parse_entity_records(event_records(es) + rest, acc) == parse_entity_records(
            rest,
            StateView {
                events: acc.events + es,
                sessions: acc.sessions,
                branches: acc.branches,
            },
        ),
    decreases es.len(),
{
    if es.len() == 0 {
        assert(event_records(es) + rest =~= rest);
        assert(acc.events + es =~= acc.events);
        assert(StateView {
            events: acc.events + es,
            sessions: acc.sessions,
            branches: acc.branches,
        } == acc);
    } else {
        let e0 = es[0];
        let d = event_records(es) + rest;
        assert(d[0] == event_record(e0));
        lemma_parse_event_record(e0);
        assert(event_record(e0).len() >= 5);
        assert(event_record(e0)[0] == FieldView::U(tag_event()));
        let acc2 = StateView {
            events: acc.events.push(e0),
            sessions: acc.sessions,
            branches: acc.branches,
        };
        assert(d.drop_first() =~= event_records(es.drop_first()) + rest);
        assert(forall|i: int|
            0 <= i < es.drop_first().len() ==> #[trigger] es.drop_first()[i] == es[i + 1]);
        assert forall|i: int| 0 <= i < es.drop_first().len() implies !has_event_id(
            acc2.events,
            #[trigger] es.drop_first()[i].id,
        ) by {
            assert(es.drop_first()[i] == es[i + 1]);
            assert(!has_event_id(acc.events, es[i + 1].id));
            assert(es[i + 1].id != e0.id);
            assert(forall|k: int|
                0 <= k < acc2.events.len() ==> #[trigger] acc2.events[k]
                    == if k < acc.events.len() {
                    acc.events[k]
                } else {
                    e0
                });
        }
        lemma_fold_events(es.drop_first(), rest, acc2);
        assert(acc2.events + es.drop_first() =~= acc.events + es);
    }
}

/// A snapshot document parses back to the state it was written from.
pub proof fn lemma_parse_snapshot_roundtrip(sv: StateView)
    requires
        state_view_wf(sv),
    ensures
        parse_snapshot_doc(snapshot_records(sv)) == Some(sv),
{
    let d = snapshot_records(sv);
    assert(d[0] == header_record(doc_kind_snapshot()));
    assert(d.drop_first() =~= session_records(sv.sessions) + (branch_records(sv.branches)
        + event_records(sv.events)));
    lemma_fold_sessions(
        sv.sessions,
        branch_records(sv.branches) + event_records(sv.events),
        empty_state_view(),
    );
    let acc1 = StateView {
        sessions: Seq::<SessionV>::empty() + sv.sessions,
        events: Seq::<EventV>::empty(),
        branches: Seq::<TimelineBranchV>::empty(),
    };
    assert(branch_records(sv.branches) + event_records(sv.events) =~= branch_records(
        sv.branches,
    ) + event_records(sv.events));
    lemma_fold_branches(sv.branches, event_records(sv.events), acc1);
    let acc2 = StateView {
        branches: acc1.branches + sv.branches,
        events: acc1.events,
        sessions: acc1.sessions,
    };
    assert(event_records(sv.events) =~= event_records(sv.events) + Seq::<
        Seq<FieldView>,
    >::empty());
    lemma_fold_events(sv.events, Seq::<Seq<FieldView>>::empty(), acc2);
    let acc3 = StateView {
        events: acc2.events + sv.events,
        sessions: acc2.sessions,
        branches: acc2.branches,
    };
    assert(parse_entity_records(Seq::<Seq<FieldView>>::empty(), acc3) == Some(acc3));
    assert(acc3.sessions =~= sv.sessions);
    assert(acc3.branches =~= sv.branches);
    assert(acc3.events =~= sv.events);
    assert(acc3 == sv);
}

/// Appending one session appends its record.
pub proof fn lemma_session_records_push(ss: Seq<SessionV>, x: SessionV)
    ensures
        session_records(ss.push(x)) == session_records(ss) + seq![session_record(x)],
    decreases ss.len(),
{
    reveal_with_fuel(session_records, 3);
    if ss.len() == 0 {
        assert(ss.push(x).drop_first() =~= Seq::<SessionV>::empty());
        assert(session_records(ss.push(x)) =~= session_records(ss) + seq![session_record(x)]);
    } else {
        assert(ss.push(x).drop_first() =~= ss.drop_first().push(x));
        lemma_session_records_push(ss.drop_first(), x);
        assert(session_records(ss.push(x)) =~= session_records(ss) + seq![session_record(x)]);
    }
}

/// Appending one branch appends its record.
pub proof fn lemma_branch_records_push(bs: Seq<TimelineBranchV>, x: TimelineBranchV)
    ensures
        branch_records(bs.push(x)) == branch_records(bs) + seq![branch_record(x)],
    decreases bs.len(),
{
    reveal_with_fuel(branch_records, 3);
    if bs.len() == 0 {
        assert(bs.push(x).drop_first() =~= Seq::<TimelineBranchV>::empty());
        assert(branch_records(bs.push(x)) =~= branch_records(bs) + seq![branch_record(x)]);
    } else {
        assert(bs.push(x).drop_first() =~= bs.drop_first().push(x));
        lemma_branch_records_push(bs.drop_first(), x);
        assert(branch_records(bs.push(x)) =~= branch_records(bs) + seq![branch_record(x)]);
    }
}

/// Appending one event appends its record.
pub proof fn lemma_event_records_push(es: Seq<EventV>, x: EventV)
    ensures
        event_records(es.push(x)) == event_records(es) + seq![event_record(x)],
    decreases es.len(),
{
    reveal_with_fuel(event_records, 3);
    if es.len() == 0 {
        assert(es.push(x).drop_first() =~= Seq::<EventV>::empty());
        assert(event_records(es.push(x)) =~= event_records(es) + seq![event_record(x)]);
    } else {
        assert(es.push(x).drop_first() =~= es.drop_first().push(x));
        lemma_event_records_push(es.drop_first(), x);
        assert(event_records(es.push(x)) =~= event_records(es) + seq![event_record(x)]);
    }
}

/// Build the snapshot document of a state.
pub fn state_to_doc(st: &StoreState) -> (d: Vec<Vec<FieldVal>>)
    ensures
        doc_views(d@) == snapshot_records(state_view(*st)),
{
    let mut d: Vec<Vec<FieldVal>> = Vec::new();
    let mut header: Vec<FieldVal> = Vec::new();
    header.push(FieldVal::U(0));
    header.push(FieldVal::U(1));
    let ghost hv = header@;
    let ghost d0 = d@;
    d.push(header);
    proof {
        assert(field_views(hv) =~= header_record(doc_kind_snapshot()));
        crate::codec::lemma_doc_views_push(d0, d@[0]);
        assert(doc_views(d0) =~= Seq::<Seq<FieldView>>::empty());
        assert(doc_views(d@) =~= seq![header_record(doc_kind_snapshot())]);
    }
    let n1 = st.sessions.len();
    let mut i: usize = 0;
    while i < n1
        invariant
            i <= n1,
            n1 == st.sessions@.len(),
            doc_views(d@) == seq![header_record(doc_kind_snapshot())] + session_records(
                session_views(st.sessions@.take(i as int)),
            ),
        decreases n1 - i,
    {
        let ghost pre_d = d@;
        d.push(session_to_fields(&st.sessions[i]));
        proof {
            crate::codec::lemma_doc_views_push(pre_d, d@[d@.len() - 1]);
            assert(session_views(st.sessions@.take(i + 1)) =~= session_views(
                st.sessions@.take(i as int),
            ).push(st.sessions@[i as int]@));
            lemma_session_records_push(
                session_views(st.sessions@.take(i as int)),
                st.sessions@[i as int]@,
            );
            assert(doc_views(d@) =~= seq![header_record(doc_kind_snapshot())]
                + session_records(session_views(st.sessions@.take(i + 1))));
        }
        i = i + 1;
    }
    proof {
        assert(st.sessions@.take(n1 as int) =~= st.sessions@);
    }
    let n2 = st.branches.len();
    let mut j: usize = 0;
    while j < n2
        invariant
            j <= n2,
            n2 == st.branches@.len(),
            doc_views(d@) == seq![header_record(doc_kind_snapshot())] + session_records(
                session_views(st.sessions@),
            ) + branch_records(branch_views(st.branches@.take(j as int))),
        decreases n2 - j,
    {
        let ghost pre_d = d@;
        d.push(branch_to_fields(&st.branches[j]));
        proof {
            crate::codec::lemma_doc_views_push(pre_d, d@[d@.len() - 1]);
            assert(branch_views(st.branches@.take(j + 1)) =~= branch_views(
                st.branches@.take(j as int),
            ).push(st.branches@[j as int]@));
            lemma_branch_records_push(
                branch_views(st.branches@.take(j as int)),
                st.branches@[j as int]@,
            );
            assert(doc_views(d@) =~= seq![header_record(doc_kind_snapshot())]
                + session_records(session_views(st.sessions@)) + branch_records(
                branch_views(st.branches@.take(j + 1)),
            ));
        }
        j = j + 1;
    }
    proof {
        assert(st.branches@.take(n2 as int) =~= st.branches@);
    }
    let n3 = st.events.len();
    let mut k: usize = 0;
    while k < n3
        invariant
            k <= n3,
            n3 == st.events@.len(),
            doc_views(d@) == seq![header_record(doc_kind_snapshot())] + session_records(
                session_views(st.sessions@),
            ) + branch_records(branch_views(st.branches@)) + event_records(
                event_views(st.events@.take(k as int)),
            ),
        decreases n3 - k,
    {
        let ghost pre_d = d@;
        d.push(event_to_fields(&st.events[k]));
        proof {
            crate::codec::lemma_doc_views_push(pre_d, d@[d@.len() - 1]);
            assert(event_views(st.events@.take(k + 1)) =~= event_views(
                st.events@.take(k as int),
            ).push(st.events@[k as int]@));
            lemma_event_records_push(
                event_views(st.events@.take(k as int)),
                st.events@[k as int]@,
            );
            assert(doc_views(d@) =~= seq![header_record(doc_kind_snapshot())]
                + session_records(session_views(st.sessions@)) + branch_records(
                branch_views(st.branches@),
            ) + event_records(event_views(st.events@.take(k + 1))));
        }
        k = k + 1;
    }
    proof {
        assert(st.events@.take(n3 as int) =~= st.events@);
        assert(doc_views(d@) =~= snapshot_records(state_view(*st)));
    }
    d
}

/// Whether a session id is already stored.
fn contains_session_id(v: &Vec<Session>, id: &String) -> (r: bool)
    ensures
        r == has_session_id(session_views(v@), id@),
{
    let n = v.len();
    let mut i: usize = 0;
    while i < n
        invariant
            i <= n,
            n == v@.len(),
            forall|k: int| 0 <= k < i ==> session_views(v@)[k].id != id@,
        decreases n - i,
    {
        if v[i].id == *id {
            proof {
                assert(session_views(v@)[i as int].id == id@);
            }
            return true;
        }
        i = i + 1;
    }
    false
}

/// Whether a branch id is already stored.
fn contains_branch_id(v: &Vec<TimelineBranch>, id: &String) -> (r: bool)
    ensures
        r == has_branch_id(branch_views(v@), id@),
{
    let n = v.len();
    let mut i: usize = 0;
    while i < n
        invariant
            i <= n,
            n == v@.len(),
            forall|k: int| 0 <= k < i ==> branch_views(v@)[k].id != id@,
        decreases n - i,
    {
        if v[i].id == *id {
            proof {
                assert(branch_views(v@)[i as int].id == id@);
            }
            return true;
        }
        i = i + 1;
    }
    false
}

/// Whether an event id is already stored.
fn contains_event_id(v: &Vec<Event>, id: &String) -> (r: bool)
    ensures
        r == has_event_id(event_views(v@), id@),
{
    let n = v.len();
    let mut i: usize = 0;
    while i < n
        invariant
            i <= n,
            n == v@.len(),
            forall|k: int| 0 <= k < i ==> event_views(v@)[k].id != id@,
        decreases n - i,
    {
        if v[i].id == *id {
            proof {
                assert(event_views(v@)[i as int].id == id@);
            }
            return true;
        }
        i = i + 1;
    }
    false
}

/// Rebuild a state from a snapshot document.
pub fn doc_to_state(d: &Vec<Vec<FieldVal>>) -> (res: Option<StoreState>)
    ensures
        match (res, parse_snapshot_doc(doc_views(d@))) {
            (Some(st), Some(sv)) => state_view(st) == sv && st.wf(),
            (None, None) => true,
            _ => false,
        },
{
    proof {
        assert(forall|k: int|
            0 <= k < d@.len() ==> #[trigger] doc_views(d@)[k] == field_views(d@[k]@));
    }
    if d.len() == 0 {
        return None;
    }
    let h = &d[0];
    let hdr_ok: bool = if h.len() == 2 {
        let t0: bool = match &h[0] {
            FieldVal::U(x) => *x == 0,
            _ => false,
        };
        let t1: bool = match &h[1] {
            FieldVal::U(x) => *x == 1,
            _ => false,
        };
        t0 && t1
    } else {
        false
    };
    proof {
        assert(field_views(h@).len() == h@.len());
        assert(forall|k: int|
            0 <= k < h@.len() ==> #[trigger] field_views(h@)[k] == h@[k]@);
        if hdr_ok {
            assert(field_views(h@) =~= header_record(doc_kind_snapshot()));
        } else {
            assert(field_views(h@) != header_record(doc_kind_snapshot())) by {
                if field_views(h@) == header_record(doc_kind_snapshot()) {
                    assert(field_views(h@)[0] == FieldView::U(0u64));
                    assert(field_views(h@)[1] == FieldView::U(1u64));
                }
            }
        }
    }
    if !hdr_ok {
        return None;
    }
    let mut st = StoreState::new();
    let n = d.len();
    let mut i: usize = 1;
    proof {
        assert(doc_views(d@).skip(1) =~= doc_views(d@).drop_first());
        assert(state_view(st) == empty_state_view()) by {
            assert(event_views(st.events@) =~= Seq::<EventV>::empty());
            assert(session_views(st.sessions@) =~= Seq::<SessionV>::empty());
            assert(branch_views(st.branches@) =~= Seq::<TimelineBranchV>::empty());
        }
    }
    while i < n
        invariant
            1 <= i <= n,
            n == d@.len(),
            st.wf(),
            parse_snapshot_doc(doc_views(d@)) == parse_entity_records(
                doc_views(d@).skip(i as int),
                state_view(st),
            ),
        decreases n - i,
    {
        let rec = &d[i];
        proof {
            assert(doc_views(d@).skip(i as int).drop_first() =~= doc_views(d@).skip(i + 1));
            assert(doc_views(d@).skip(i as int)[0] == field_views(rec@));
            assert(forall|k: int|
                0 <= k < rec@.len() ==> #[trigger] field_views(rec@)[k] == rec@[k]@);
        }
        if rec.len() == 0 {
            return None;
        }
        let tag: u64 = match &rec[0] {
            FieldVal::U(x) => *x,
            _ => {
                return None;
            },
        };
        if tag == 1 {
            match fields_to_session(rec) {
                Some(sv) => {
                    if contains_session_id(&st.sessions, &sv.id) {
                        return None;
                    }
                    let ghost pre = st;
                    st.upsert_session(sv);
                    proof {
                        lemma_upsert_session_view_push(pre.sessions@, sv);
                        assert(state_view(st) == StateView {
                            sessions: state_view(pre).sessions.push(sv@),
                            events: state_view(pre).events,
                            branches: state_view(pre).branches,
                        });
                    }
                },
                None => {
                    return None;
                },
            }
        } else if tag == 2 {
            match fields_to_branch(rec) {
                Some(bv) => {
                    if contains_branch_id(&st.branches, &bv.id) {
                        return None;
                    }
                    let ghost pre = st;
                    st.upsert_branch(bv);
                    proof {
                        lemma_upsert_branch_view_push(pre.branches@, bv);
                        assert(state_view(st) == StateView {
                            branches: state_view(pre).branches.push(bv@),
                            events: state_view(pre).events,
                            sessions: state_view(pre).sessions,
                        });
                    }
                },
                None => {
                    return None;
                },
            }
        } else if tag == 3 {
            match fields_to_event(rec) {
                Some(ev) => {
                    if contains_event_id(&st.events, &ev.id) {
                        return None;
                    }
                    let ghost pre = st;
                    st.upsert_event(ev);
                    proof {
                        lemma_upsert_event_view_push(pre.events@, ev);
                        assert(state_view(st) == StateView {
                            events: state_view(pre).events.push(ev@),
                            sessions: state_view(pre).sessions,
                            branches: state_view(pre).branches,
                        });
                    }
                },
                None => {
                    return None;
                },
            }
        } else {
            return None;
        }
        i = i + 1;
    }
    proof {
        assert(doc_views(d@).skip(n as int) =~= Seq::<Seq<FieldView>>::empty());
    }
    Some(st)
}

/// Upserting a session whose id is new appends it, in values and views.
pub proof fn lemma_upsert_session_view_push(s: Seq<Session>, x: Session)
    requires
        !has_session_id(session_views(s), x@.id),
    ensures
        crate::state::upsert_session_seq(s, x) == s.push(x),
        session_views(s.push(x)) == session_views(s).push(x@),
{
    assert forall|j: int| 0 <= j < s.len() implies #[trigger] s[j].id@ != x.id@ by {
        assert(session_views(s)[j] == s[j]@);
        if s[j].id@ == x.id@ {
            assert(session_views(s)[j].id == x@.id);
            assert(has_session_id(session_views(s), x@.id));
        }
    }
    crate::state::lemma_upsert_session_absent(s, x);
    assert(session_views(s.push(x)) =~= session_views(s).push(x@));
}

/// Upserting a branch whose id is new appends it, in values and views.
pub proof fn lemma_upsert_branch_view_push(s: Seq<TimelineBranch>, x: TimelineBranch)
    requires
        !has_branch_id(branch_views(s), x@.id),
    ensures
        crate::state::upsert_branch_seq(s, x) == s.push(x),
        branch_views(s.push(x)) == branch_views(s).push(x@),
{
    assert forall|j: int| 0 <= j < s.len() implies #[trigger] s[j].id@ != x.id@ by {
        assert(branch_views(s)[j] == s[j]@);
        if s[j].id@ == x.id@ {
            assert(branch_views(s)[j].id == x@.id);
            assert(has_branch_id(branch_views(s), x@.id));
        }
    }
    crate::state::lemma_upsert_branch_absent(s, x);
    assert(branch_views(s.push(x)) =~= branch_views(s).push(x@));
}

/// Upserting an event whose id is new appends it, in values and views.
pub proof fn lemma_upsert_event_view_push(s: Seq<Event>, x: Event)
    requires
        !has_event_id(event_views(s), x@.id),
    ensures
        crate::state::upsert_event_seq(s, x) == s.push(x),
        event_views(s.push(x)) == event_views(s).push(x@),
{
    assert forall|j: int| 0 <= j < s.len() implies #[trigger] s[j].id@ != x.id@ by {
        assert(event_views(s)[j] == s[j]@);
        if s[j].id@ == x.id@ {
            assert(event_views(s)[j].id == x@.id);
            assert(has_event_id(event_views(s), x@.id));
        }
    }
    crate::state::lemma_upsert_event_absent(s, x);
    assert(event_views(s.push(x)) =~= event_views(s).push(x@));
}

// ----- export bundles -----

/// The export bundle of one session and its events.
pub open spec fn bundle_records(s: SessionV, es: Seq<EventV>) -> Seq<Seq<FieldView>> {
    seq![header_record(doc_kind_bundle()), session_record(s)] + event_records(es)
}

/// Parse a run of event records, in order.
pub open spec fn parse_event_list(d: Seq<Seq<FieldView>>) -> Option<Seq<EventV>>
    decreases d.len(),
{
    if d.len() == 0 {
        Some(Seq::empty())
    } else {
        match parse_event_rec(d[0]) {
            Some(ev) => match parse_event_list(d.drop_first()) {
                Some(es) => Some(seq![ev] + es),
                None => None,
            },
            None => None,
        }
    }
}

/// What an export bundle parses to.
pub open spec fn parse_bundle_doc(d: Seq<Seq<FieldView>>) -> Option<(SessionV, Seq<EventV>)> {
    if d.len() >= 2 && d[0] == header_record(doc_kind_bundle()) {
        match parse_session_rec(d[1]) {
            Some(sv) => match parse_event_list(d.skip(2)) {
                Some(es) => Some((sv, es)),
                None => None,
            },
            None => None,
        }
    } else {
        None
    }
}

/// A run of event records parses back to the events.
pub proof fn lemma_parse_event_list_roundtrip(es: Seq<EventV>)
    ensures
        parse_event_list(event_records(es)) == Some(es),
    decreases es.len(),
{
    if es.len() > 0 {
        lemma_parse_event_record(es[0]);
        assert(event_records(es).drop_first() =~= event_records(es.drop_first()));
        lemma_parse_event_list_roundtrip(es.drop_first());
        assert(seq![es[0]] + es.drop_first() =~= es);
    }
}

/// An export bundle parses back to the session and events it was written
/// from.
pub proof fn lemma_parse_bundle_roundtrip(s: SessionV, es: Seq<EventV>)
    ensures
        parse_bundle_doc(bundle_records(s, es)) == Some((s, es)),
{
    let d = bundle_records(s, es);
    lemma_parse_session_record(s);
    assert(d.skip(2) =~= event_records(es));
    lemma_parse_event_list_roundtrip(es);
}

/// Build the export bundle of one session and its events.
pub fn bundle_to_doc(s: &Session, events: &Vec<Event>) -> (d: Vec<Vec<FieldVal>>)
    ensures
        doc_views(d@) == bundle_records(s@, event_views(events@)),
{
    let mut d: Vec<Vec<FieldVal>> = Vec::new();
    let mut header: Vec<FieldVal> = Vec::new();
    header.push(FieldVal::U(0));
    header.push(FieldVal::U(2));
    let ghost hv = header@;
    let ghost d0 = d@;
    d.push(header);
    let ghost d1 = d@;
    d.push(session_to_fields(s));
    proof {
        assert(field_views(hv) =~= header_record(doc_kind_bundle()));
        crate::codec::lemma_doc_views_push(d0, d1[0]);
        crate::codec::lemma_doc_views_push(d1, d@[1]);
        assert(doc_views(d@) =~= seq![header_record(doc_kind_bundle()), session_record(s@)]);
    }
    let n = events.len();
    let mut i: usize = 0;
    while i < n
        invariant
            i <= n,
            n == events@.len(),
            doc_views(d@) == seq![header_record(doc_kind_bundle()), session_record(s@)]
                + event_records(event_views(events@.take(i as int))),
        decreases n - i,
    {
        let ghost pre_d = d@;
        d.push(event_to_fields(&events[i]));
        proof {
            crate::codec::lemma_doc_views_push(pre_d, d@[d@.len() - 1]);
            assert(event_views(events@.take(i + 1)) =~= event_views(
                events@.take(i as int),
            ).push(events@[i as int]@));
            lemma_event_records_push(
                event_views(events@.take(i as int)),
                events@[i as int]@,
            );
            assert(doc_views(d@) =~= seq![
                header_record(doc_kind_bundle()),
                session_record(s@),
            ] + event_records(event_views(events@.take(i + 1))));
        }
        i = i + 1;
    }
    proof {
        assert(events@.take(n as int) =~= events@);
        assert(doc_views(d@) =~= bundle_records(s@, event_views(events@)));
    }
    d
}

/// Rebuild a session and its events from an export bundle.
pub fn doc_to_bundle(d: &Vec<Vec<FieldVal>>) -> (res: Option<(Session, Vec<Event>)>)
    ensures
        match (res, parse_bundle_doc(doc_views(d@))) {
            (Some((s, es)), Some((sv, esv))) => s@ == sv && event_views(es@) == esv,
            (None, None) => true,
            _ => false,
        },
{
    proof {
        assert(forall|k: int|
            0 <= k < d@.len() ==> #[trigger] doc_views(d@)[k] == field_views(d@[k]@));
    }
    if d.len() < 2 {
        return None;
    }
    let h = &d[0];
    let hdr_ok: bool = if h.len() == 2 {
        let t0: bool = match &h[0] {
            FieldVal::U(x) => *x == 0,
            _ => false,
        };
        let t1: bool = match &h[1] {
            FieldVal::U(x) => *x == 2,
            _ => false,
        };
        t0 && t1
    } else {
        false
    };
    proof {
        assert(field_views(h@).len() == h@.len());
        assert(forall|k: int|
            0 <= k < h@.len() ==> #[trigger] field_views(h@)[k] == h@[k]@);
        if hdr_ok {
            assert(field_views(h@) =~= header_record(doc_kind_bundle()));
        } else {
            if field_views(h@) == header_record(doc_kind_bundle()) {
                assert(field_views(h@)[0] == FieldView::U(0u64));
                assert(field_views(h@)[1] == FieldView::U(2u64));
                assert(false);
            }
        }
    }
    if !hdr_ok {
        return None;
    }
    let session = match fields_to_session(&d[1]) {
        Some(s) => s,
        None => {
            return None;
        },
    };
    let mut events: Vec<Event> = Vec::new();
    let n = d.len();
    let mut i: usize = 2;
    proof {
        assert(event_views(events@) =~= Seq::<EventV>::empty());
        match parse_event_list(doc_views(d@).skip(2)) {
            Some(es) => {
                assert(Seq::<EventV>::empty() + es =~= es);
            },
            None => {},
        }
    }
    while i < n
        invariant
            2 <= i <= n,
            n == d@.len(),
            parse_event_list(doc_views(d@).skip(2)) == (match parse_event_list(
                doc_views(d@).skip(i as int),
            ) {
                Some(es) => Some::<Seq<EventV>>(event_views(events@) + es),
                None => None::<Seq<EventV>>,
            }),
        decreases n - i,
    {
        proof {
            assert(doc_views(d@).skip(i as int)[0] == field_views(d@[i as int]@));
            assert(doc_views(d@).skip(i as int).drop_first() =~= doc_views(d@).skip(i + 1));
        }
        let ghost pre_events = events@;
        match fields_to_event(&d[i]) {
            Some(ev) => {
                events.push(ev);
                proof {
                    assert(event_views(events@) =~= event_views(pre_events).push(ev@));
                    match parse_event_list(doc_views(d@).skip(i + 1)) {
                        Some(es2) => {
                            assert(parse_event_list(doc_views(d@).skip(i as int))
                                == Some::<Seq<EventV>>(seq![ev@] + es2));
                            assert(event_views(pre_events) + (seq![ev@] + es2)
                                =~= event_views(events@) + es2);
                        },
                        None => {
                            assert(parse_event_list(doc_views(d@).skip(i as int)) is None);
                        },
                    }
                }
                i = i + 1;
            },
            None => {
                proof {
                    assert(parse_event_list(doc_views(d@).skip(i as int)) is None);
                }
                return None;
            },
        }
    }
    proof {
        assert(doc_views(d@).skip(n as int) =~= Seq::<Seq<FieldView>>::empty());
        assert(event_views(events@) + Seq::<EventV>::empty() =~= event_views(events@));
    }
    Some((session, events))
}

// ----- encrypted wrapper documents -----

/// The whole encrypted wrapper document.
pub open spec fn wrapper_doc(salt: Seq<u8>, nonce: Seq<u8>, ct: Seq<u8>) -> Seq<
    Seq<FieldView>,
> {
    seq![header_record(doc_kind_wrapper()), wrapper_record(salt, nonce, ct)]
}

/// What an encrypted wrapper document parses to.
pub open spec fn parse_wrapper_doc(d: Seq<Seq<FieldView>>) -> Option<(
    Seq<u8>,
    Seq<u8>,
    Seq<u8>,
)> {
    if d.len() == 2 && d[0] == header_record(doc_kind_wrapper()) {
        parse_wrapper_rec(d[1])
    } else {
        None
    }
}

/// Build an encrypted wrapper document.
pub fn build_wrapper_doc(salt: Vec<u8>, nonce: Vec<u8>, ct: Vec<u8>) -> (d: Vec<
    Vec<FieldVal>,
>)
    ensures
        doc_views(d@) == wrapper_doc(salt@, nonce@, ct@),
{
    let ghost saltv = salt@;
    let ghost noncev = nonce@;
    let ghost ctv = ct@;
    let mut d: Vec<Vec<FieldVal>> = Vec::new();
    let mut header: Vec<FieldVal> = Vec::new();
    header.push(FieldVal::U(0));
    header.push(FieldVal::U(3));
    let ghost hv = header@;
    let ghost d0 = d@;
    d.push(header);
    let mut rec: Vec<FieldVal> = Vec::new();
    rec.push(FieldVal::U(4));
    rec.push(FieldVal::B(salt));
    rec.push(FieldVal::B(nonce));
    rec.push(FieldVal::B(ct));
    let ghost rv = rec@;
    let ghost d1 = d@;
    d.push(rec);
    proof {
        assert(field_views(hv) =~= header_record(doc_kind_wrapper()));
        crate::codec::lemma_doc_views_push(d0, d1[0]);
        crate::codec::lemma_doc_views_push(d1, d@[1]);
        assert(field_views(rv) =~= wrapper_record(saltv, noncev, ctv));
        assert(doc_views(d@) =~= wrapper_doc(saltv, noncev, ctv));
    }
    d
}

/// Take an encrypted wrapper document apart.
pub fn doc_to_wrapper(d: &Vec<Vec<FieldVal>>) -> (res: Option<(Vec<u8>, Vec<u8>, Vec<u8>)>)
    ensures
        match (res, parse_wrapper_doc(doc_views(d@))) {
            (Some((salt, nonce, ct)), Some((sv, nv, cv))) => salt@ == sv && nonce@ == nv
                && ct@ == cv,
            (None, None) => true,
            _ => false,
        },
{
    proof {
        assert(forall|k: int|
            0 <= k < d@.len() ==> #[trigger] doc_views(d@)[k] == field_views(d@[k]@));
    }
    if d.len() != 2 {
        return None;
    }
    let h = &d[0];
    let hdr_ok: bool = if h.len() == 2 {
        let t0: bool = match &h[0] {
            FieldVal::U(x) => *x == 0,
            _ => false,
        };
        let t1: bool = match &h[1] {
            FieldVal::U(x) => *x == 3,
            _ => false,
        };
        t0 && t1
    } else {
        false
    };
    proof {
        assert(field_views(h@).len() == h@.len());
        assert(forall|k: int|
            0 <= k < h@.len() ==> #[trigger] field_views(h@)[k] == h@[k]@);
        if hdr_ok {
            assert(field_views(h@) =~= header_record(doc_kind_wrapper()));
        } else {
            if field_views(h@) == header_record(doc_kind_wrapper()) {
                assert(field_views(h@)[0] == FieldView::U(0u64));
                assert(field_views(h@)[1] == FieldView::U(3u64));
                assert(false);
            }
        }
    }
    if !hdr_ok {
        return None;
    }
    let r = &d[1];
    proof {
        assert(forall|k: int|
            0 <= k < r@.len() ==> #[trigger] field_views(r@)[k] == r@[k]@);
    }
    if r.len() != 4 {
        return None;
    }
    let tag: u64 = match &r[0] {
        FieldVal::U(x) => *x,
        _ => {
            return None;
        },
    };
    if tag != 4 {
        return None;
    }
    let salt = match &r[1] {
        FieldVal::B(v) => v.clone(),
        _ => {
            return None;
        },
    };
    let nonce = match &r[2] {
        FieldVal::B(v) => v.clone(),
        _ => {
            return None;
        },
    };
    let ct = match &r[3] {
        FieldVal::B(v) => v.clone(),
        _ => {
            return None;
        },
    };
    Some((salt, nonce, ct))
}

} // verus!
