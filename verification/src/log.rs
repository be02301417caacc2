//! Append-only log framing.
//!
//! One mutation appends one record.  In the compact-binary encoding a
//! record is framed by a four-byte little-endian length prefix; in the
//! structured-text encoding it is one line.  Threshold checks scan frames
//! or lines without deserializing the records.

use vstd::prelude::*;
use vstd::bytes::*;
use vstd::slice::slice_subrange;
use crate::codec::{
    FieldVal, FieldView, field_views, doc_views, record_wf, enc_record_bin, dec_record_bin,
    push_record_bin, parse_record_bin, lemma_dec_enc_record_bin,
};

verus! {

/// One binary log frame: length prefix, then the record.
pub open spec fn frame_bin(r: Seq<FieldView>) -> Seq<u8> {
    spec_u32_to_le_bytes(enc_record_bin(r).len() as u32) + enc_record_bin(r)
}

/// A record small enough for the four-byte length prefix.
pub open spec fn frame_wf(r: Seq<FieldView>) -> bool {
    record_wf(r) && enc_record_bin(r).len() <= u32::MAX
}

/// The whole binary log of a record sequence.
pub open spec fn enc_log_bin(rs: Seq<Seq<FieldView>>) -> Seq<u8>
    decreases rs.len(),
{
    if rs.len() == 0 {
        Seq::empty()
    } else {
        frame_bin(rs[0]) + enc_log_bin(rs.drop_first())
    }
}

/// Appending one record appends its frame.
pub proof fn lemma_enc_log_bin_push(rs: Seq<Seq<FieldView>>, r: Seq<FieldView>)
    ensures
        enc_log_bin(rs.push(r)) == enc_log_bin(rs) + frame_bin(r),
    decreases rs.len(),
{
    reveal_with_fuel(enc_log_bin, 3);
    if rs.len() == 0 {
        assert(rs.push(r).drop_first() =~= Seq::<Seq<FieldView>>::empty());
        assert(enc_log_bin(rs.push(r)) =~= enc_log_bin(rs) + frame_bin(r));
    } else {
        assert(rs.push(r).drop_first() =~= rs.drop_first().push(r));
        lemma_enc_log_bin_push(rs.drop_first(), r);
        assert(enc_log_bin(rs.push(r)) =~= enc_log_bin(rs) + frame_bin(r));
    }
}

/// What reading binary frames from `pos` to the end yields.  Each frame's
/// record must consume its length exactly.
pub open spec fn dec_log_bin(b: Seq<u8>, pos: int) -> Option<Seq<Seq<FieldView>>>
    decreases b.len() - pos,
    when 0 <= pos
{
    if pos == b.len() {
        Some(Seq::empty())
    } else if pos + 4 <= b.len() {
        let len = spec_u32_from_le_bytes(b.subrange(pos, pos + 4)) as int;
        if pos + 4 + len <= b.len() {
            match dec_record_bin(b, pos + 4) {
                Some((r, e)) => if e == pos + 4 + len {
                    match dec_log_bin(b, e) {
                        Some(rs) => Some(seq![r] + rs),
                        None => None,
                    }
                } else {
                    None
                },
                None => None,
            }
        } else {
            None
        }
    } else {
        None
    }
}

/// Reading what [`enc_log_bin`] wrote, ending exactly at the end of the
/// byte string, yields the records back.
pub proof fn lemma_dec_enc_log_bin(b: Seq<u8>, pos: int, rs: Seq<Seq<FieldView>>)
    requires
        0 <= pos,
        forall|i: int| 0 <= i < rs.len() ==> frame_wf(#[trigger] rs[i]),
        pos + enc_log_bin(rs).len() == b.len(),
        b.subrange(pos, b.len() as int) == enc_log_bin(rs),
    ensures
        dec_log_bin(b, pos) == Some(rs),
    decreases rs.len(),
{
    lemma_auto_spec_u32_to_from_le_bytes();
    if rs.len() == 0 {
        assert(pos == b.len());
    } else {
        let r0 = rs[0];
        let renc = enc_record_bin(r0);
        let f0 = frame_bin(r0);
        let rest = enc_log_bin(rs.drop_first());
        assert(enc_log_bin(rs) == f0 + rest);
        assert(frame_wf(r0));
        assert forall|i: int| 0 <= i < enc_log_bin(rs).len() implies #[trigger] b[pos + i]
            == enc_log_bin(rs)[i] by {
            assert(b.subrange(pos, b.len() as int)[i] == b[pos + i]);
        }
        assert(b.subrange(pos, pos + 4) =~= spec_u32_to_le_bytes(renc.len() as u32)) by {
            assert(forall|k: int|
                0 <= k < 4 ==> #[trigger] b.subrange(pos, pos + 4)[k] == b[pos + k]);
            assert(forall|k: int| 0 <= k < 4 ==> enc_log_bin(rs)[k] == f0[k]);
        }
        assert(spec_u32_from_le_bytes(b.subrange(pos, pos + 4)) == renc.len() as u32);
        assert(b.subrange(pos + 4, pos + 4 + renc.len() as int) =~= renc) by {
            assert forall|k: int| 0 <= k < renc.len() implies b.subrange(
                pos + 4,
                pos + 4 + renc.len() as int,
            )[k] == renc[k] by {
                assert(b.subrange(pos + 4, pos + 4 + renc.len() as int)[k] == b[pos + (4
                    + k)]);
                assert(b[pos + (4 + k)] == enc_log_bin(rs)[4 + k]);
                assert(enc_log_bin(rs)[4 + k] == f0[4 + k]);
                assert(f0[4 + k] == renc[k]);
            }
        }
        lemma_dec_enc_record_bin(b, pos + 4, r0);
        let mid = pos + 4 + renc.len() as int;
        assert(b.subrange(mid, b.len() as int) =~= rest) by {
            assert forall|k: int| 0 <= k < rest.len() implies b.subrange(
                mid,
                b.len() as int,
            )[k] == rest[k] by {
                assert(b.subrange(mid, b.len() as int)[k] == b[pos + (4 + renc.len() + k)]);
                assert(b[pos + (4 + renc.len() + k)] == enc_log_bin(rs)[4 + renc.len() + k]);
                assert(enc_log_bin(rs)[4 + renc.len() + k] == rest[k]);
            }
        }
        assert(forall|i: int|
            0 <= i < rs.drop_first().len() ==> frame_wf(#[trigger] rs.drop_first()[i]))
            by {
            assert(forall|i: int|
                0 <= i < rs.drop_first().len() ==> #[trigger] rs.drop_first()[i] == rs[i
                    + 1]);
        }
        lemma_dec_enc_log_bin(b, mid, rs.drop_first());
        assert(seq![r0] + rs.drop_first() =~= rs);
    }
}

/// Append one framed record to a binary log.  Fails, leaving the log
/// unchanged, only when the record is too large for the length prefix.
pub fn append_record_bin(log: &mut Vec<u8>, rec: &Vec<FieldVal>) -> (ok: bool)
    ensures
        ok <==> enc_record_bin(field_views(rec@)).len() <= u32::MAX,
        ok ==> final(log)@ == old(log)@ + frame_bin(field_views(rec@)) && frame_wf(
            field_views(rec@),
        ),
        !ok ==> final(log)@ == old(log)@,
{
    let mut body: Vec<u8> = Vec::new();
    push_record_bin(&mut body, rec);
    if body.len() > 0xFFFFFFFFusize {
        return false;
    }
    let mut prefix = u32_to_le_bytes(body.len() as u32);
    log.append(&mut prefix);
    log.append(&mut body);
    proof {
        assert(log@ =~= old(log)@ + frame_bin(field_views(rec@)));
    }
    true
}

/// Parse a whole binary log.
pub fn parse_log_bin(b: &[u8]) -> (r: Option<Vec<Vec<FieldVal>>>)
    ensures
        match (r, dec_log_bin(b@, 0)) {
            (Some(d), Some(dv)) => doc_views(d@) == dv,
            (None, None) => true,
            _ => false,
        },
{
    let mut records: Vec<Vec<FieldVal>> = Vec::new();
    let mut cur: usize = 0;
    proof {
        assert(doc_views(records@) =~= Seq::<Seq<FieldView>>::empty());
        match dec_log_bin(b@, 0) {
            Some(rsv) => {
                assert(Seq::<Seq<FieldView>>::empty() + rsv =~= rsv);
            },
            None => {},
        }
    }
    while cur < b.len()
        invariant
            cur <= b@.len(),
            dec_log_bin(b@, 0) == (match dec_log_bin(b@, cur as int) {
                Some(rsv) => Some::<Seq<Seq<FieldView>>>(doc_views(records@) + rsv),
                None => None::<Seq<Seq<FieldView>>>,
            }),
        decreases b@.len() - cur,
    {
        proof {
            lemma_auto_spec_u32_to_from_le_bytes();
        }
        if b.len() - cur < 4 {
            proof {
                assert(dec_log_bin(b@, cur as int) is None);
            }
            return None;
        }
        let len32 = u32_from_le_bytes(slice_subrange(b, cur, cur + 4));
        let len = len32 as usize;
        if b.len() - (cur + 4) < len {
            proof {
                assert(dec_log_bin(b@, cur as int) is None);
            }
            return None;
        }
        let ghost pre_records = records@;
        match parse_record_bin(b, cur + 4) {
            Some((rec, e)) => {
                if e != cur + 4 + len {
                    proof {
                        assert(dec_log_bin(b@, cur as int) is None);
                    }
                    return None;
                }
                records.push(rec);
                proof {
                    assert(doc_views(records@) =~= doc_views(pre_records).push(
                        field_views(rec@),
                    ));
                    match dec_log_bin(b@, e as int) {
                        Some(rsv2) => {
                            assert(dec_log_bin(b@, cur as int) == Some::<Seq<
                                Seq<FieldView>,
                            >>(seq![field_views(rec@)] + rsv2));
                            assert(doc_views(pre_records) + (seq![field_views(rec@)] + rsv2)
                                =~= doc_views(records@) + rsv2);
                        },
                        None => {
                            assert(dec_log_bin(b@, cur as int) is None);
                        },
                    }
                }
                cur = e;
            },
            None => {
                proof {
                    assert(dec_log_bin(b@, cur as int) is None);
                }
                return None;
            },
        }
    }
    proof {
        assert(dec_log_bin(b@, cur as int) == Some(Seq::<Seq<FieldView>>::empty()));
        assert(doc_views(records@) + Seq::<Seq<FieldView>>::empty() =~= doc_views(records@));
    }
    Some(records)
}

/// The number of length-prefixed frames a binary log holds, scanning
/// without deserializing; a malformed tail ends the count.
pub open spec fn count_frames_bin(b: Seq<u8>, pos: int) -> nat
    decreases b.len() - pos,
    when 0 <= pos
{
    if pos + 4 <= b.len() {
        let len = spec_u32_from_le_bytes(b.subrange(pos, pos + 4)) as int;
        if pos + 4 + len <= b.len() {
            1 + count_frames_bin(b, pos + 4 + len)
        } else {
            0
        }
    } else {
        0
    }
}

/// Count the frames of a binary log.
pub fn count_log_records_bin(b: &[u8]) -> (n: u64)
    ensures
        n == count_frames_bin(b@, 0) || (n == u64::MAX && count_frames_bin(b@, 0)
            >= u64::MAX),
{
    let mut cur: usize = 0;
    let mut n: u64 = 0;
    proof {
        lemma_auto_spec_u32_to_from_le_bytes();
    }
    while cur <= b.len() && b.len() - cur >= 4
        invariant
            cur <= b@.len(),
            count_frames_bin(b@, 0) == n + count_frames_bin(b@, cur as int),
        decreases b@.len() - cur,
    {
        proof {
            lemma_auto_spec_u32_to_from_le_bytes();
        }
        let len32 = u32_from_le_bytes(slice_subrange(b, cur, cur + 4));
        let len = len32 as usize;
        if b.len() - (cur + 4) < len {
            proof {
                assert(count_frames_bin(b@, cur as int) == 0);
            }
            return n;
        }
        if n == u64::MAX {
            return n;
        }
        n = n + 1;
        cur = cur + 4 + len;
    }
    proof {
        assert(count_frames_bin(b@, cur as int) == 0);
    }
    n
}

/// The number of newline-terminated lines in a text log.
pub open spec fn count_lines(b: Seq<u8>, pos: int) -> nat
    decreases b.len() - pos,
    when 0 <= pos
{
    if pos < b.len() {
        if b[pos] == 10 {
            1 + count_lines(b, pos + 1)
        } else {
            count_lines(b, pos + 1)
        }
    } else {
        0
    }
}

/// Count the lines of a text log.
pub fn count_log_records_text(b: &[u8]) -> (n: u64)
    ensures
        n == count_lines(b@, 0) || (n == u64::MAX && count_lines(b@, 0) >= u64::MAX),
{
    let mut cur: usize = 0;
    let mut n: u64 = 0;
    while cur < b.len()
        invariant
            cur <= b@.len(),
            count_lines(b@, 0) == n + count_lines(b@, cur as int),
        decreases b@.len() - cur,
    {
        if n == u64::MAX {
            proof {
                assert(count_lines(b@, 0) >= n);
            }
            return n;
        }
        if *vstd::slice::slice_index_get(b, cur) == 10 {
            n = n + 1;
        }
        cur = cur + 1;
    }
    n
}

} // verus!
