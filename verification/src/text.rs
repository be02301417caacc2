//! The structured-text encoding.
//!
//! A text document is a line-oriented ASCII file: a header line, then one
//! record per line.  A record's fields are space-separated tokens, each a
//! kind letter followed by the base64 of the field's payload — so the salt,
//! nonce and ciphertext of an encrypted wrapper appear as base64 fields, as
//! do strings and integers.  Base64 is the outside crate's; what it returns
//! is named [`crate::crypto::b64_of`], so a parse-of-encode guarantee rides
//! on the encoder, whose contract states that parsing its output yields the
//! document back.

use vstd::prelude::*;
use vstd::bytes::*;
use vstd::slice::slice_subrange;
use crate::codec::{
    FieldVal, FieldView, field_views, doc_views, field_wf, record_wf, doc_wf, enc_u64,
    enc_chars, dec_chars, push_u64, push_chars, read_chars, lemma_enc_chars_len,
    lemma_dec_enc_chars,
};
use crate::crypto::{b64_of, b64_decode_of, is_b64_byte, b64_encode, b64_decode};

verus! {

/// The payload bytes a field's token carries in base64.
pub open spec fn payload_of(f: FieldView) -> Seq<u8> {
    match f {
        FieldView::U(x) => enc_u64(x),
        FieldView::S(cs) => enc_chars(cs),
        FieldView::B(bs) => bs,
    }
}

/// What the trusted base64 statements give for one field: its payload
/// decodes back, through alphabet bytes only.  Established at each encoding
/// call site; a premise of the parse-of-encode lemmas.
pub open spec fn text_field_ok(f: FieldView) -> bool {
    &&& b64_decode_of(b64_of(payload_of(f))) == Some(payload_of(f))
    &&& forall|i: int|
        0 <= i < b64_of(payload_of(f)).len() ==> is_b64_byte(
            #[trigger] b64_of(payload_of(f))[i],
        )
}

/// [`text_field_ok`] field-wise.
pub open spec fn text_record_ok(r: Seq<FieldView>) -> bool {
    forall|i: int| 0 <= i < r.len() ==> text_field_ok(#[trigger] r[i])
}

/// [`text_field_ok`] record-wise.
pub open spec fn text_doc_ok(d: Seq<Seq<FieldView>>) -> bool {
    forall|i: int| 0 <= i < d.len() ==> text_record_ok(#[trigger] d[i])
}

/// The header line of a structured-text document.
pub open spec fn text_magic() -> Seq<u8> {
    seq![116u8, 108u8, 49u8, 10u8]
}

/// A token separator or line end.
pub open spec fn is_delim(x: u8) -> bool {
    x == 32 || x == 10
}

/// Kind letter, then the payload in base64.
pub open spec fn enc_field_text(f: FieldView) -> Seq<u8> {
    match f {
        FieldView::U(x) => seq![117u8] + b64_of(enc_u64(x)),
        FieldView::S(cs) => seq![115u8] + b64_of(enc_chars(cs)),
        FieldView::B(bs) => seq![98u8] + b64_of(bs),
    }
}

/// Tokens joined by single spaces.
pub open spec fn enc_fields_text(fs: Seq<FieldView>) -> Seq<u8>
    decreases fs.len(),
{
    if fs.len() == 0 {
        Seq::empty()
    } else if fs.len() == 1 {
        enc_field_text(fs[0])
    } else {
        enc_field_text(fs[0]) + seq![32u8] + enc_fields_text(fs.drop_first())
    }
}

/// One line: the fields, then a newline.
pub open spec fn enc_record_text(r: Seq<FieldView>) -> Seq<u8> {
    enc_fields_text(r) + seq![10u8]
}

/// The lines of a document, one after another.
pub open spec fn enc_records_text(rs: Seq<Seq<FieldView>>) -> Seq<u8>
    decreases rs.len(),
{
    if rs.len() == 0 {
        Seq::empty()
    } else {
        enc_record_text(rs[0]) + enc_records_text(rs.drop_first())
    }
}

/// Header line, then the record lines.
pub open spec fn enc_doc_text(d: Seq<Seq<FieldView>>) -> Seq<u8> {
    text_magic() + enc_records_text(d)
}

/// The first delimiter position at or after `pos`.
pub open spec fn token_end(b: Seq<u8>, pos: int) -> int
    decreases b.len() - pos,
{
    if pos >= b.len() || pos < 0 {
        pos
    } else if is_delim(b[pos]) {
        pos
    } else {
        token_end(b, pos + 1)
    }
}

/// A scan never runs backwards, and stops by the end.
pub proof fn lemma_token_end_bounds(b: Seq<u8>, pos: int)
    requires
        0 <= pos <= b.len(),
    ensures
        pos <= token_end(b, pos) <= b.len(),
    decreases b.len() - pos,
{
    if pos < b.len() && !is_delim(b[pos]) {
        lemma_token_end_bounds(b, pos + 1);
    }
}

/// Scanning over non-delimiter bytes runs to the first delimiter after
/// them.
pub proof fn lemma_token_end_skips(b: Seq<u8>, pos: int, len: nat)
    requires
        0 <= pos,
        pos + len <= b.len(),
        forall|i: int| pos <= i < pos + len ==> !is_delim(#[trigger] b[i]),
        pos + len == b.len() || is_delim(b[pos + len]),
    ensures
        token_end(b, pos) == pos + len,
    decreases len,
{
    if len > 0 {
        lemma_token_end_skips(b, pos + 1, (len - 1) as nat);
    }
}

/// What reading one field token at `pos` yields.
pub open spec fn dec_field_text(b: Seq<u8>, pos: int) -> Option<(FieldView, int)> {
    if 0 <= pos < b.len() && !is_delim(b[pos]) {
        let k = b[pos];
        let e = token_end(b, pos + 1);
        let payload = b.subrange(pos + 1, e);
        if k == 117 {
            match b64_decode_of(payload) {
                Some(p) => if p.len() == 8 {
                    Some((FieldView::U(spec_u64_from_le_bytes(p)), e))
                } else {
                    None
                },
                None => None,
            }
        } else if k == 115 {
            match b64_decode_of(payload) {
                Some(p) => if p.len() % 4 == 0 {
                    match dec_chars(p, 0, (p.len() / 4) as nat) {
                        Some((cs, _e2)) => Some((FieldView::S(cs), e)),
                        None => None,
                    }
                } else {
                    None
                },
                None => None,
            }
        } else if k == 98 {
            match b64_decode_of(payload) {
                Some(p) => Some((FieldView::B(p), e)),
                None => None,
            }
        } else {
            None
        }
    } else {
        None
    }
}

/// A field parse lands on or before the end, past its start.
pub proof fn lemma_dec_field_text_bounds(b: Seq<u8>, pos: int)
    requires
        dec_field_text(b, pos) is Some,
    ensures
        pos < dec_field_text(b, pos).unwrap().1 <= b.len(),
{
    lemma_token_end_bounds(b, pos + 1);
}

/// What reading one line of field tokens at `pos` yields, the closing
/// newline consumed.
pub open spec fn dec_fields_text(b: Seq<u8>, pos: int) -> Option<(Seq<FieldView>, int)>
    decreases b.len() - pos,
    when 0 <= pos
    via dec_fields_text_decreases
{
    if 0 <= pos < b.len() {
        if b[pos] == 10 {
            Some((Seq::empty(), pos + 1))
        } else {
            match dec_field_text(b, pos) {
                Some((f, e)) => if e < b.len() && b[e] == 32 {
                    match dec_fields_text(b, e + 1) {
                        Some((fs, e2)) => if fs.len() > 0 {
                            Some((seq![f] + fs, e2))
                        } else {
                            None
                        },
                        None => None,
                    }
                } else if e < b.len() && b[e] == 10 {
                    Some((seq![f], e + 1))
                } else {
                    None
                },
                None => None,
            }
        }
    } else {
        None
    }
}

#[via_fn]
proof fn dec_fields_text_decreases(b: Seq<u8>, pos: int) {
    if 0 <= pos < b.len() && b[pos] != 10 {
        if dec_field_text(b, pos) is Some {
            lemma_dec_field_text_bounds(b, pos);
        }
    }
}

/// A line parse consumes at least its newline and stops by the end.
pub proof fn lemma_dec_fields_text_bounds(b: Seq<u8>, pos: int)
    requires
        0 <= pos,
        dec_fields_text(b, pos) is Some,
    ensures
        pos < dec_fields_text(b, pos).unwrap().1 <= b.len(),
    decreases b.len() - pos,
{
    if 0 <= pos < b.len() && b[pos] != 10 {
        let (f, e) = dec_field_text(b, pos).unwrap();
        lemma_dec_field_text_bounds(b, pos);
        if e < b.len() && b[e] == 32 {
            lemma_dec_fields_text_bounds(b, e + 1);
        }
    }
}

/// What reading record lines from `pos` to the end of the document yields.
pub open spec fn dec_records_text(b: Seq<u8>, pos: int) -> Option<Seq<Seq<FieldView>>>
    decreases b.len() - pos,
    when 0 <= pos
    via dec_records_text_decreases
{
    if pos == b.len() {
        Some(Seq::empty())
    } else if 0 <= pos < b.len() {
        match dec_fields_text(b, pos) {
            Some((r, e)) => match dec_records_text(b, e) {
                Some(rs) => Some(seq![r] + rs),
                None => None,
            },
            None => None,
        }
    } else {
        None
    }
}

#[via_fn]
proof fn dec_records_text_decreases(b: Seq<u8>, pos: int) {
    if 0 <= pos < b.len() {
        if dec_fields_text(b, pos) is Some {
            lemma_dec_fields_text_bounds(b, pos);
        }
    }
}

/// What a whole structured-text document parses to.
pub open spec fn dec_doc_text(b: Seq<u8>) -> Option<Seq<Seq<FieldView>>> {
    if b.len() >= 4 && b.subrange(0, 4) == text_magic() {
        dec_records_text(b, 4)
    } else {
        None
    }
}

/// Appending one field appends a separator (after the first) and its token.
pub proof fn lemma_enc_fields_text_push(fs: Seq<FieldView>, f: FieldView)
    ensures
        enc_fields_text(fs.push(f)) == if fs.len() == 0 {
            enc_field_text(f)
        } else {
            enc_fields_text(fs) + seq![32u8] + enc_field_text(f)
        },
    decreases fs.len(),
{
    reveal_with_fuel(enc_fields_text, 4);
    if fs.len() == 0 {
        assert(fs.push(f) =~= seq![f]);
    } else if fs.len() == 1 {
        assert(fs.push(f).drop_first() =~= seq![f]);
        assert(enc_fields_text(fs.push(f)) =~= enc_fields_text(fs) + seq![32u8]
            + enc_field_text(f));
    } else {
        assert(fs.push(f).drop_first() =~= fs.drop_first().push(f));
        lemma_enc_fields_text_push(fs.drop_first(), f);
        assert(enc_fields_text(fs.push(f)) =~= enc_fields_text(fs) + seq![32u8]
            + enc_field_text(f));
    }
}

/// Reading what [`enc_field_text`] wrote, up to a delimiter or the end,
/// yields the field back.
pub proof fn lemma_dec_enc_field_text(b: Seq<u8>, pos: int, f: FieldView)
    requires
        0 <= pos,
        field_wf(f),
        text_field_ok(f),
        pos + enc_field_text(f).len() <= b.len(),
        b.subrange(pos, pos + enc_field_text(f).len()) == enc_field_text(f),
        pos + enc_field_text(f).len() == b.len() || is_delim(
            b[pos + enc_field_text(f).len()],
        ),
    ensures
        dec_field_text(b, pos) == Some((f, pos + enc_field_text(f).len())),
{
    lemma_auto_spec_u64_to_from_le_bytes();
    let enc = enc_field_text(f);
    let chunk = b64_of(payload_of(f));
    assert(enc.len() == 1 + chunk.len());
    assert(b[pos] == enc[0]) by {
        assert(b.subrange(pos, pos + enc.len())[0] == b[pos]);
    }
    assert forall|i: int| pos + 1 <= i < pos + enc.len() implies !is_delim(
        #[trigger] b[i],
    ) by {
        assert(b[i] == b.subrange(pos, pos + enc.len())[i - pos]);
        assert(enc[i - pos] == chunk[i - pos - 1]);
        assert(is_b64_byte(chunk[i - pos - 1]));
    }
    lemma_token_end_skips(b, pos + 1, chunk.len());
    let e = token_end(b, pos + 1);
    assert(e == pos + enc.len());
    assert(b.subrange(pos + 1, e) =~= chunk) by {
        assert forall|k: int| 0 <= k < chunk.len() implies b.subrange(pos + 1, e)[k]
            == chunk[k] by {
            assert(b.subrange(pos + 1, e)[k] == b[pos + 1 + k]);
            assert(b[pos + 1 + k] == b.subrange(pos, pos + enc.len())[k + 1]);
            assert(enc[k + 1] == chunk[k]);
        }
    }
    assert(b64_decode_of(b.subrange(pos + 1, e)) == Some(payload_of(f)));
    match f {
        FieldView::U(x) => {
            assert(payload_of(f).len() == 8);
        },
        FieldView::S(cs) => {
            let p = payload_of(f);
            lemma_enc_chars_len(cs);
            assert(p.len() == 4 * cs.len());
            assert(p.len() % 4 == 0);
            assert(p.subrange(0, 4 * cs.len() as int) =~= enc_chars(cs));
            lemma_dec_enc_chars(p, 0, cs);
            assert((p.len() / 4) as nat == cs.len());
        },
        FieldView::B(bs) => {},
    }
}

/// Reading what [`enc_record_text`] wrote yields the whole line back.
pub proof fn lemma_dec_enc_fields_text(b: Seq<u8>, pos: int, fs: Seq<FieldView>)
    requires
        0 <= pos,
        forall|i: int| 0 <= i < fs.len() ==> field_wf(#[trigger] fs[i]),
        text_record_ok(fs),
        pos + enc_record_text(fs).len() <= b.len(),
        b.subrange(pos, pos + enc_record_text(fs).len()) == enc_record_text(fs),
    ensures
        dec_fields_text(b, pos) == Some((fs, pos + enc_record_text(fs).len())),
    decreases fs.len(),
{
    let enc = enc_record_text(fs);
    assert forall|i: int| 0 <= i < enc.len() implies #[trigger] b[pos + i] == enc[i] by {
        assert(b.subrange(pos, pos + enc.len())[i] == b[pos + i]);
    }
    if fs.len() == 0 {
        assert(b[pos] == 10) by {
            assert(b[pos + 0] == enc[0]);
        }
    } else {
        let f0 = fs[0];
        let e0 = enc_field_text(f0);
        assert(b.subrange(pos, pos + e0.len() as int) =~= e0);
        if fs.len() == 1 {
            assert(enc == e0 + seq![10u8]);
            assert(b[pos + e0.len() as int] == 10) by {
                assert(b[pos + e0.len() as int] == enc[e0.len() as int]);
            }
            lemma_dec_enc_field_text(b, pos, f0);
            assert(b[pos] != 10) by {
                assert(e0[0] == 117 || e0[0] == 115 || e0[0] == 98);
            }
            assert(seq![f0] =~= fs);
        } else {
            let rest = enc_record_text(fs.drop_first());
            assert(enc_fields_text(fs) == e0 + seq![32u8] + enc_fields_text(fs.drop_first()));
            assert(enc =~= e0 + seq![32u8] + rest);
            assert(b[pos + e0.len() as int] == 32) by {
                assert(b[pos + e0.len() as int] == enc[e0.len() as int]);
                assert(enc[e0.len() as int] == 32);
            }
            lemma_dec_enc_field_text(b, pos, f0);
            assert(b[pos] != 10) by {
                assert(e0[0] == 117 || e0[0] == 115 || e0[0] == 98);
            }
            let mid = pos + e0.len() as int + 1;
            assert(b.subrange(mid, mid + rest.len() as int) =~= rest) by {
                assert forall|k: int| 0 <= k < rest.len() implies b.subrange(
                    mid,
                    mid + rest.len() as int,
                )[k] == rest[k] by {
                    assert(b.subrange(mid, mid + rest.len() as int)[k] == b[pos + (
                    e0.len() + 1 + k)]);
                    assert(b[pos + (e0.len() + 1 + k)] == enc[e0.len() + 1 + k]);
                    assert(enc[e0.len() + 1 + k] == rest[k]);
                }
            }
            assert(forall|i: int|
                0 <= i < fs.drop_first().len() ==> field_wf(#[trigger] fs.drop_first()[i]));
            assert(text_record_ok(fs.drop_first())) by {
                assert(forall|i: int|
                    0 <= i < fs.drop_first().len() ==> #[trigger] fs.drop_first()[i] == fs[i
                        + 1]);
            }
            lemma_dec_enc_fields_text(b, mid, fs.drop_first());
            assert(seq![f0] + fs.drop_first() =~= fs);
            assert(fs.drop_first().len() > 0);
        }
    }
}

/// Reading what [`enc_records_text`] wrote, ending exactly at the end of
/// the byte string, yields the records back.
pub proof fn lemma_dec_enc_records_text(b: Seq<u8>, pos: int, rs: Seq<Seq<FieldView>>)
    requires
        0 <= pos,
        forall|i: int| 0 <= i < rs.len() ==> record_wf(#[trigger] rs[i]),
        text_doc_ok(rs),
        pos + enc_records_text(rs).len() == b.len(),
        b.subrange(pos, b.len() as int) == enc_records_text(rs),
    ensures
        dec_records_text(b, pos) == Some(rs),
    decreases rs.len(),
{
    if rs.len() == 0 {
        assert(pos == b.len());
    } else {
        let r0 = rs[0];
        let e0 = enc_record_text(r0);
        let rest = enc_records_text(rs.drop_first());
        assert(enc_records_text(rs) == e0 + rest);
        assert forall|i: int| 0 <= i < enc_records_text(rs).len() implies #[trigger] b[pos
            + i] == enc_records_text(rs)[i] by {
            assert(b.subrange(pos, b.len() as int)[i] == b[pos + i]);
        }
        assert(b.subrange(pos, pos + e0.len() as int) =~= e0) by {
            assert forall|k: int| 0 <= k < e0.len() implies b.subrange(
                pos,
                pos + e0.len() as int,
            )[k] == e0[k] by {
                assert(b.subrange(pos, pos + e0.len() as int)[k] == b[pos + k]);
                assert(enc_records_text(rs)[k] == e0[k]);
            }
        }
        assert(record_wf(r0));
        lemma_dec_enc_fields_text(b, pos, r0);
        let mid = pos + e0.len() as int;
        assert(b.subrange(mid, b.len() as int) =~= rest) by {
            assert forall|k: int| 0 <= k < rest.len() implies b.subrange(
                mid,
                b.len() as int,
            )[k] == rest[k] by {
                assert(b.subrange(mid, b.len() as int)[k] == b[pos + (e0.len() + k)]);
                assert(b[pos + (e0.len() + k)] == enc_records_text(rs)[e0.len() + k]);
                assert(enc_records_text(rs)[e0.len() + k] == rest[k]);
            }
        }
        assert(forall|i: int|
            0 <= i < rs.drop_first().len() ==> record_wf(#[trigger] rs.drop_first()[i]));
        assert(text_doc_ok(rs.drop_first())) by {
            assert(forall|i: int|
                0 <= i < rs.drop_first().len() ==> #[trigger] rs.drop_first()[i] == rs[i + 1]);
        }
        lemma_dec_enc_records_text(b, mid, rs.drop_first());
        assert(pos < b.len()) by {
            assert(e0.len() > 0);
        }
        assert(seq![r0] + rs.drop_first() =~= rs);
    }
}

/// Parsing what [`enc_doc_text`] wrote yields the document back, given the
/// base64 statements collected while encoding.
pub proof fn lemma_dec_enc_doc_text(d: Seq<Seq<FieldView>>)
    requires
        doc_wf(d),
        text_doc_ok(d),
    ensures
        dec_doc_text(enc_doc_text(d)) == Some(d),
{
    let b = enc_doc_text(d);
    assert(b.subrange(0, 4) =~= text_magic());
    assert(b.subrange(4, b.len() as int) =~= enc_records_text(d));
    lemma_dec_enc_records_text(b, 4, d);
}

// ----- exec encoders (text) -----

/// Append one field's token.
pub(crate) fn push_field_text(out: &mut Vec<u8>, f: &FieldVal)
    ensures
        final(out)@ == old(out)@ + enc_field_text(f@),
        text_field_ok(f@),
        field_wf(f@),
{
    let mut payload: Vec<u8> = Vec::new();
    match f {
        FieldVal::U(x) => {
            push_u64(&mut payload, *x);
            out.push(117u8);
        },
        FieldVal::S(sv) => {
            let n = sv.as_str().unicode_len();
            push_chars(&mut payload, sv.as_str());
            proof {
                assert(n == sv@.len());
            }
            out.push(115u8);
        },
        FieldVal::B(bv) => {
            let m = bv.len();
            proof {
                assert(m == bv@.len());
            }
            payload.extend_from_slice(bv.as_slice());
            out.push(98u8);
        },
    }
    proof {
        assert(payload@ =~= payload_of(f@));
        assert(field_wf(f@));
    }
    let tok = b64_encode(payload.as_slice());
    out.extend_from_slice(tok.as_slice());
    proof {
        assert(out@ =~= old(out)@ + enc_field_text(f@));
    }
}

/// Append one record line.
pub(crate) fn push_record_text(out: &mut Vec<u8>, r: &Vec<FieldVal>)
    ensures
        final(out)@ == old(out)@ + enc_record_text(field_views(r@)),
        text_record_ok(field_views(r@)),
        record_wf(field_views(r@)),
{
    let n = r.len();
    let mut i: usize = 0;
    while i < n
        invariant
            i <= n,
            n == r@.len(),
            out@ == old(out)@ + enc_fields_text(field_views(r@.take(i as int))),
            forall|k: int| 0 <= k < i ==> text_field_ok(#[trigger] field_views(r@)[k]),
            forall|k: int| 0 <= k < i ==> field_wf(#[trigger] field_views(r@)[k]),
        decreases n - i,
    {
        if i > 0 {
            out.push(32u8);
        }
        push_field_text(out, &r[i]);
        proof {
            assert(field_views(r@.take(i + 1)) =~= field_views(r@.take(i as int)).push(
                r@[i as int]@,
            ));
            lemma_enc_fields_text_push(field_views(r@.take(i as int)), r@[i as int]@);
            assert(out@ =~= old(out)@ + enc_fields_text(field_views(r@.take(i + 1))));
            assert(field_views(r@)[i as int] == r@[i as int]@);
        }
        i = i + 1;
    }
    out.push(10u8);
    proof {
        assert(r@.take(n as int) =~= r@);
        assert(field_views(r@.take(n as int)) =~= field_views(r@));
        assert(out@ =~= old(out)@ + enc_record_text(field_views(r@)));
    }
}

/// Encode a whole document in the structured-text form.  Parsing the
/// output yields the document back.
pub fn encode_doc_text(d: &Vec<Vec<FieldVal>>) -> (out: Vec<u8>)
    ensures
        out@ == enc_doc_text(doc_views(d@)),
        text_doc_ok(doc_views(d@)),
        doc_wf(doc_views(d@)),
        dec_doc_text(out@) == Some(doc_views(d@)),
{
    let mut out: Vec<u8> = Vec::new();
    out.push(116u8);
    out.push(108u8);
    out.push(49u8);
    out.push(10u8);
    proof {
        assert(out@ =~= text_magic());
    }
    let n = d.len();
    let mut i: usize = 0;
    while i < n
        invariant
            i <= n,
            n == d@.len(),
            out@ == text_magic() + enc_records_text(doc_views(d@.take(i as int))),
            forall|k: int| 0 <= k < i ==> text_record_ok(#[trigger] doc_views(d@)[k]),
            forall|k: int| 0 <= k < i ==> record_wf(#[trigger] doc_views(d@)[k]),
        decreases n - i,
    {
        push_record_text(&mut out, &d[i]);
        proof {
            assert(doc_views(d@.take(i + 1)) =~= doc_views(d@.take(i as int)).push(
                field_views(d@[i as int]@),
            ));
            lemma_enc_records_text_push(
                doc_views(d@.take(i as int)),
                field_views(d@[i as int]@),
            );
            assert(out@ =~= text_magic() + enc_records_text(doc_views(d@.take(i + 1))));
            assert(doc_views(d@)[i as int] == field_views(d@[i as int]@));
        }
        i = i + 1;
    }
    proof {
        assert(d@.take(n as int) =~= d@);
        assert(doc_views(d@.take(n as int)) =~= doc_views(d@));
        lemma_dec_enc_doc_text(doc_views(d@));
    }
    out
}

/// Appending one record appends its line.
pub proof fn lemma_enc_records_text_push(rs: Seq<Seq<FieldView>>, r: Seq<FieldView>)
    ensures
        enc_records_text(rs.push(r)) == enc_records_text(rs) + enc_record_text(r),
    decreases rs.len(),
{
    reveal_with_fuel(enc_records_text, 3);
    if rs.len() == 0 {
        assert(rs.push(r).drop_first() =~= Seq::<Seq<FieldView>>::empty());
        assert(enc_records_text(rs.push(r)) =~= enc_records_text(rs) + enc_record_text(r));
    } else {
        assert(rs.push(r).drop_first() =~= rs.drop_first().push(r));
        lemma_enc_records_text_push(rs.drop_first(), r);
        assert(enc_records_text(rs.push(r)) =~= enc_records_text(rs) + enc_record_text(r));
    }
}

// ----- exec parsers (text) -----

/// Whether the byte at `i` is a separator or line end.
fn at_delim(b: &[u8], i: usize) -> (r: bool)
    requires
        i < b@.len(),
    ensures
        r == is_delim(b@[i as int]),
{
    let c = *vstd::slice::slice_index_get(b, i);
    c == 32 || c == 10
}

/// Read one field token at `pos`.
pub(crate) fn parse_field_text(b: &[u8], pos: usize) -> (r: Option<(FieldVal, usize)>)
    ensures
        match (r, dec_field_text(b@, pos as int)) {
            (Some((f, p)), Some((fv, pv))) => f@ == fv && p as int == pv && p <= b@.len(),
            (None, None) => true,
            _ => false,
        },
{
    if pos >= b.len() {
        return None;
    }
    let k = *vstd::slice::slice_index_get(b, pos);
    if k == 32 || k == 10 {
        return None;
    }
    let mut e: usize = pos + 1;
    while e < b.len() && !at_delim(b, e)
        invariant
            pos + 1 <= e <= b@.len(),
            forall|i: int| pos + 1 <= i < e ==> !is_delim(#[trigger] b@[i]),
        decreases b@.len() - e,
    {
        e = e + 1;
    }
    proof {
        lemma_token_end_skips(b@, pos + 1, (e - (pos + 1)) as nat);
        assert(token_end(b@, pos + 1) == e as int);
    }
    let payload = slice_subrange(b, pos + 1, e);
    if k == 117 {
        match b64_decode(payload) {
            Some(p) => {
                if p.len() == 8 {
                    let x = u64_from_le_bytes(p.as_slice());
                    Some((FieldVal::U(x), e))
                } else {
                    None
                }
            },
            None => None,
        }
    } else if k == 115 {
        match b64_decode(payload) {
            Some(p) => {
                if p.len() % 4 == 0 {
                    match read_chars(p.as_slice(), 0, (p.len() / 4) as u64) {
                        Some((sv, _e2)) => Some((FieldVal::S(sv), e)),
                        None => None,
                    }
                } else {
                    None
                }
            },
            None => None,
        }
    } else if k == 98 {
        match b64_decode(payload) {
            Some(p) => Some((FieldVal::B(p), e)),
            None => None,
        }
    } else {
        None
    }
}

/// Read one record line at `pos`.
pub(crate) fn parse_fields_text(b: &[u8], pos: usize) -> (r: Option<(Vec<FieldVal>, usize)>)
    ensures
        match (r, dec_fields_text(b@, pos as int)) {
            (Some((fs, p)), Some((fsv, pv))) => field_views(fs@) == fsv && p as int == pv && p
                <= b@.len(),
            (None, None) => true,
            _ => false,
        },
{
    if pos >= b.len() {
        return None;
    }
    if *vstd::slice::slice_index_get(b, pos) == 10 {
        let fields: Vec<FieldVal> = Vec::new();
        proof {
            assert(field_views(fields@) =~= Seq::<FieldView>::empty());
        }
        return Some((fields, pos + 1));
    }
    let mut fields: Vec<FieldVal> = Vec::new();
    let mut cur: usize = pos;
    proof {
        assert(field_views(fields@) =~= Seq::<FieldView>::empty());
        match dec_fields_text(b@, pos as int) {
            Some((fsv, e)) => {
                assert(Seq::<FieldView>::empty() + fsv =~= fsv);
            },
            None => {},
        }
    }
    loop
        invariant
            pos <= cur <= b@.len(),
            fields@.len() == 0 ==> cur == pos,
            pos < b@.len() && b@[pos as int] != 10,
            dec_fields_text(b@, pos as int) == (match dec_fields_text(b@, cur as int) {
                Some((fsv, e)) => if fsv.len() > 0 || fields@.len() == 0 {
                    Some::<(Seq<FieldView>, int)>((field_views(fields@) + fsv, e))
                } else {
                    None::<(Seq<FieldView>, int)>
                },
                None => None::<(Seq<FieldView>, int)>,
            }),
        decreases b@.len() - cur,
    {
        let ghost pre_fields = fields@;
        match parse_field_text(b, cur) {
            Some((f, e)) => {
                proof {
                    lemma_dec_field_text_bounds(b@, cur as int);
                }
                if e < b.len() && *vstd::slice::slice_index_get(b, e) == 32 {
                    fields.push(f);
                    proof {
                        assert(field_views(fields@) =~= field_views(pre_fields).push(f@));
                        match dec_fields_text(b@, e + 1) {
                            Some((fsv2, e2)) => {
                                if fsv2.len() > 0 {
                                    assert(dec_fields_text(b@, cur as int) == Some::<(
                                        Seq<FieldView>,
                                        int,
                                    )>((seq![f@] + fsv2, e2)));
                                    assert(field_views(pre_fields) + (seq![f@] + fsv2)
                                        =~= field_views(fields@) + fsv2);
                                } else {
                                    assert(dec_fields_text(b@, cur as int) is None);
                                }
                            },
                            None => {
                                assert(dec_fields_text(b@, cur as int) is None);
                            },
                        }
                    }
                    cur = e + 1;
                } else if e < b.len() && *vstd::slice::slice_index_get(b, e) == 10 {
                    fields.push(f);
                    proof {
                        assert(dec_fields_text(b@, cur as int) == Some::<(
                            Seq<FieldView>,
                            int,
                        )>((seq![f@], e + 1)));
                        assert(field_views(pre_fields) + seq![f@] =~= field_views(fields@));
                    }
                    return Some((fields, e + 1));
                } else {
                    proof {
                        assert(dec_fields_text(b@, cur as int) is None);
                    }
                    return None;
                }
            },
            None => {
                proof {
                    if cur < b@.len() && b@[cur as int] == 10 {
                        assert(dec_fields_text(b@, cur as int) == Some::<(
                            Seq<FieldView>,
                            int,
                        )>((Seq::<FieldView>::empty(), cur + 1)));
                        assert(fields@.len() > 0);
                    } else {
                        assert(dec_fields_text(b@, cur as int) is None);
                    }
                }
                return None;
            },
        }
    }
}

/// Parse a whole structured-text document.
pub fn parse_doc_text(b: &[u8]) -> (r: Option<Vec<Vec<FieldVal>>>)
    ensures
        match (r, dec_doc_text(b@)) {
            (Some(d), Some(dv)) => doc_views(d@) == dv,
            (None, None) => true,
            _ => false,
        },
{
    if b.len() < 4 {
        return None;
    }
    let m0 = *vstd::slice::slice_index_get(b, 0);
    let m1 = *vstd::slice::slice_index_get(b, 1);
    let m2 = *vstd::slice::slice_index_get(b, 2);
    let m3 = *vstd::slice::slice_index_get(b, 3);
    if !(m0 == 116 && m1 == 108 && m2 == 49 && m3 == 10) {
        proof {
            if b@.subrange(0, 4) == text_magic() {
                assert(b@[0] == 116 && b@[1] == 108 && b@[2] == 49 && b@[3] == 10) by {
                    assert(b@.subrange(0, 4)[0] == b@[0]);
                    assert(b@.subrange(0, 4)[1] == b@[1]);
                    assert(b@.subrange(0, 4)[2] == b@[2]);
                    assert(b@.subrange(0, 4)[3] == b@[3]);
                }
            }
        }
        return None;
    }
    proof {
        assert(b@.subrange(0, 4) =~= text_magic());
    }
    let mut records: Vec<Vec<FieldVal>> = Vec::new();
    let mut cur: usize = 4;
    proof {
        assert(doc_views(records@) =~= Seq::<Seq<FieldView>>::empty());
        match dec_records_text(b@, 4) {
            Some(rsv) => {
                assert(Seq::<Seq<FieldView>>::empty() + rsv =~= rsv);
            },
            None => {},
        }
    }
    while cur < b.len()
        invariant
            4 <= cur <= b@.len(),
            b@.len() >= 4,
            b@.subrange(0, 4) == text_magic(),
            dec_records_text(b@, 4) == (match dec_records_text(b@, cur as int) {
                Some(rsv) => Some::<Seq<Seq<FieldView>>>(doc_views(records@) + rsv),
                None => None::<Seq<Seq<FieldView>>>,
            }),
        decreases b@.len() - cur,
    {
        let ghost pre_records = records@;
        match parse_fields_text(b, cur) {
            Some((rec, e)) => {
                proof {
                    lemma_dec_fields_text_bounds(b@, cur as int);
                }
                records.push(rec);
                proof {
                    assert(doc_views(records@) =~= doc_views(pre_records).push(
                        field_views(rec@),
                    ));
                    match dec_records_text(b@, e as int) {
                        Some(rsv2) => {
                            assert(dec_records_text(b@, cur as int) == Some::<Seq<
                                Seq<FieldView>,
                            >>(seq![field_views(rec@)] + rsv2));
                            assert(doc_views(pre_records) + (seq![field_views(rec@)] + rsv2)
                                =~= doc_views(records@) + rsv2);
                        },
                        None => {
                            assert(dec_records_text(b@, cur as int) is None);
                        },
                    }
                }
                cur = e;
            },
            None => {
                proof {
                    assert(dec_records_text(b@, cur as int) is None);
                }
                return None;
            },
        }
    }
    proof {
        assert(dec_records_text(b@, cur as int) == Some(Seq::<Seq<FieldView>>::empty()));
        assert(doc_views(records@) + Seq::<Seq<FieldView>>::empty() =~= doc_views(records@));
    }
    Some(records)
}

/// Parse a text log: record lines with no header, to the end.
pub fn parse_log_text(b: &[u8]) -> (r: Option<Vec<Vec<FieldVal>>>)
    ensures
        match (r, dec_records_text(b@, 0)) {
            (Some(d), Some(dv)) => doc_views(d@) == dv,
            (None, None) => true,
            _ => false,
        },
{
    let mut records: Vec<Vec<FieldVal>> = Vec::new();
    let mut cur: usize = 0;
    proof {
        assert(doc_views(records@) =~= Seq::<Seq<FieldView>>::empty());
        match dec_records_text(b@, 0) {
            Some(rsv) => {
                assert(Seq::<Seq<FieldView>>::empty() + rsv =~= rsv);
            },
            None => {},
        }
    }
    while cur < b.len()
        invariant
            cur <= b@.len(),
            dec_records_text(b@, 0) == (match dec_records_text(b@, cur as int) {
                Some(rsv) => Some::<Seq<Seq<FieldView>>>(doc_views(records@) + rsv),
                None => None::<Seq<Seq<FieldView>>>,
            }),
        decreases b@.len() - cur,
    {
        let ghost pre_records = records@;
        match parse_fields_text(b, cur) {
            Some((rec, e)) => {
                proof {
                    lemma_dec_fields_text_bounds(b@, cur as int);
                }
                records.push(rec);
                proof {
                    assert(doc_views(records@) =~= doc_views(pre_records).push(
                        field_views(rec@),
                    ));
                    match dec_records_text(b@, e as int) {
                        Some(rsv2) => {
                            assert(dec_records_text(b@, cur as int) == Some::<Seq<
                                Seq<FieldView>,
                            >>(seq![field_views(rec@)] + rsv2));
                            assert(doc_views(pre_records) + (seq![field_views(rec@)] + rsv2)
                                =~= doc_views(records@) + rsv2);
                        },
                        None => {
                            assert(dec_records_text(b@, cur as int) is None);
                        },
                    }
                }
                cur = e;
            },
            None => {
                proof {
                    assert(dec_records_text(b@, cur as int) is None);
                }
                return None;
            },
        }
    }
    proof {
        assert(dec_records_text(b@, cur as int) == Some(Seq::<Seq<FieldView>>::empty()));
        assert(doc_views(records@) + Seq::<Seq<FieldView>>::empty() =~= doc_views(records@));
    }
    Some(records)
}

} // verus!
