//! The record codec underlying both on-disk encodings.
//!
//! Every on-disk artifact — snapshot, encrypted wrapper, export bundle,
//! append-only log record — is a sequence of records, and a record is a
//! sequence of fields: an unsigned integer, a character string, or a byte
//! string.  This module defines the field model and the compact-binary
//! encoding: little-endian integers, length-prefixed payloads, one tag byte
//! per field.  Encoders and parsers carry full functional contracts, and
//! the parse-of-encode lemmas make every higher round-trip proof a matter
//! of algebra over records.

use vstd::prelude::*;
use vstd::bytes::*;
use vstd::slice::{slice_subrange, slice_to_vec};
use vstd::string::StrSliceExecFns;

verus! {

/// One field of a record.
pub enum FieldVal {
    /// An unsigned integer (timestamps and other signed values travel as
    /// their two's-complement image).
    U(u64),
    /// A character string.
    S(String),
    /// An opaque byte string (salts, nonces, ciphertexts).
    B(Vec<u8>),
}

/// View of [`FieldVal`].
pub enum FieldView {
    U(u64),
    S(Seq<char>),
    B(Seq<u8>),
}

impl View for FieldVal {
    type V = FieldView;

    open spec fn view(&self) -> FieldView {
        match self {
            FieldVal::U(x) => FieldView::U(*x),
            FieldVal::S(s) => FieldView::S(s@),
            FieldVal::B(b) => FieldView::B(b@),
        }
    }
}

/// The element-wise views of one record.
pub open spec fn field_views(r: Seq<FieldVal>) -> Seq<FieldView> {
    r.map_values(|f: FieldVal| f@)
}

/// The element-wise views of a record sequence.
pub open spec fn doc_views(d: Seq<Vec<FieldVal>>) -> Seq<Seq<FieldView>> {
    d.map_values(|r: Vec<FieldVal>| field_views(r@))
}

/// A code point outside the surrogate range: precisely the values a `char`
/// can carry.
pub open spec fn valid_scalar(u: u32) -> bool {
    u < 0xD800 || (0xE000 <= u && u <= 0x10FFFF)
}

/// Relies on `char::from_u32` of core: yields the character of a valid
/// code point and nothing for a surrogate or out-of-range value.
pub assume_specification[ char::from_u32 ](u: u32) -> (r: Option<char>)
    ensures
        valid_scalar(u) ==> r == Some(u as char),
        !valid_scalar(u) ==> r is None,
;

/// A `char` cast to `u32` is a valid scalar, and casting back recovers it.
pub proof fn lemma_char_scalar(c: char)
    ensures
        valid_scalar(c as u32),
        (c as u32) as char == c,
{
    vstd::utf8::char_is_scalar(c);
    vstd::utf8::char_u32_cast(c, c as u32);
}

// ----- payload encodings -----

/// Eight little-endian bytes.
pub open spec fn enc_u64(x: u64) -> Seq<u8> {
    spec_u64_to_le_bytes(x)
}

/// What reading eight little-endian bytes at `pos` yields.
pub open spec fn dec_u64(b: Seq<u8>, pos: int) -> Option<(u64, int)> {
    if 0 <= pos && pos + 8 <= b.len() {
        Some((spec_u64_from_le_bytes(b.subrange(pos, pos + 8)), pos + 8))
    } else {
        None
    }
}

/// Each character as four little-endian bytes of its code point.
pub open spec fn enc_chars(s: Seq<char>) -> Seq<u8>
    decreases s.len(),
{
    if s.len() == 0 {
        Seq::empty()
    } else {
        spec_u32_to_le_bytes(s[0] as u32) + enc_chars(s.drop_first())
    }
}

/// What reading `n` four-byte code points at `pos` yields.
pub open spec fn dec_chars(b: Seq<u8>, pos: int, n: nat) -> Option<(Seq<char>, int)>
    decreases n,
{
    if n == 0 {
        if 0 <= pos <= b.len() {
            Some((Seq::empty(), pos))
        } else {
            None
        }
    } else if 0 <= pos && pos + 4 <= b.len() {
        let u = spec_u32_from_le_bytes(b.subrange(pos, pos + 4));
        if valid_scalar(u) {
            match dec_chars(b, pos + 4, (n - 1) as nat) {
                Some((cs, e)) => Some((seq![u as char] + cs, e)),
                None => None,
            }
        } else {
            None
        }
    } else {
        None
    }
}

/// The character payload is four bytes per character.
pub proof fn lemma_enc_chars_len(s: Seq<char>)
    ensures
        enc_chars(s).len() == 4 * s.len(),
    decreases s.len(),
{
    lemma_auto_spec_u32_to_from_le_bytes();
    if s.len() > 0 {
        lemma_enc_chars_len(s.drop_first());
    }
}

/// Appending one character appends its four bytes.
pub proof fn lemma_enc_chars_push(s: Seq<char>, c: char)
    ensures
        enc_chars(s.push(c)) == enc_chars(s) + spec_u32_to_le_bytes(c as u32),
    decreases s.len(),
{
    reveal_with_fuel(enc_chars, 3);
    if s.len() == 0 {
        assert(s.push(c).drop_first() =~= Seq::<char>::empty());
        assert(enc_chars(s.push(c)) =~= enc_chars(s) + spec_u32_to_le_bytes(c as u32));
    } else {
        assert(s.push(c).drop_first() =~= s.drop_first().push(c));
        lemma_enc_chars_push(s.drop_first(), c);
        assert(enc_chars(s.push(c)) =~= enc_chars(s) + spec_u32_to_le_bytes(c as u32));
    }
}

/// Reading what [`enc_chars`] wrote yields the characters back.
pub proof fn lemma_dec_enc_chars(b: Seq<u8>, pos: int, s: Seq<char>)
    requires
        0 <= pos,
        pos + 4 * s.len() <= b.len(),
        b.subrange(pos, pos + 4 * s.len()) == enc_chars(s),
    ensures
        dec_chars(b, pos, s.len()) == Some((s, pos + 4 * s.len())),
    decreases s.len(),
{
    lemma_auto_spec_u32_to_from_le_bytes();
    if s.len() == 0 {
    } else {
        let u0 = s[0] as u32;
        lemma_enc_chars_len(s.drop_first());
        assert(enc_chars(s) == spec_u32_to_le_bytes(u0) + enc_chars(s.drop_first()));
        assert(b.subrange(pos, pos + 4) =~= enc_chars(s).subrange(0, 4));
        assert(enc_chars(s).subrange(0, 4) =~= spec_u32_to_le_bytes(u0));
        assert(spec_u32_from_le_bytes(b.subrange(pos, pos + 4)) == u0);
        lemma_char_scalar(s[0]);
        assert(b.subrange(pos + 4, pos + 4 * s.len()) =~= b.subrange(
            pos,
            pos + 4 * s.len(),
        ).subrange(4, 4 * s.len() as int));
        assert(enc_chars(s).subrange(4, 4 * s.len() as int) =~= enc_chars(s.drop_first()));
        assert(pos + 4 + 4 * s.drop_first().len() == pos + 4 * s.len());
        lemma_dec_enc_chars(b, pos + 4, s.drop_first());
        assert(seq![(u0 as char)] + s.drop_first() =~= s);
    }
}

/// A successful partial parse composes with the rest.
pub proof fn lemma_dec_chars_split(b: Seq<u8>, pos: int, i: nat, n: nat)
    requires
        i <= n,
        dec_chars(b, pos, i) is Some,
    ensures
        ({
            let (cs1, m) = dec_chars(b, pos, i).unwrap();
            dec_chars(b, pos, n) == match dec_chars(b, m, (n - i) as nat) {
                Some((cs2, e)) => Some::<(Seq<char>, int)>((cs1 + cs2, e)),
                None => None::<(Seq<char>, int)>,
            }
        }),
    decreases i,
{
    let (cs1, m) = dec_chars(b, pos, i).unwrap();
    if i == 0 {
        assert(cs1 =~= Seq::<char>::empty());
        match dec_chars(b, m, n) {
            Some((cs2, e)) => {
                assert(cs1 + cs2 =~= cs2);
            },
            None => {},
        }
    } else {
        let u = spec_u32_from_le_bytes(b.subrange(pos, pos + 4));
        let (cs1t, _m2) = dec_chars(b, pos + 4, (i - 1) as nat).unwrap();
        lemma_dec_chars_split(b, pos + 4, (i - 1) as nat, (n - 1) as nat);
        match dec_chars(b, m, (n - i) as nat) {
            Some((cs2, e)) => {
                assert(dec_chars(b, pos + 4, (n - 1) as nat) == Some::<(Seq<char>, int)>((
                    cs1t + cs2,
                    e,
                )));
                assert(seq![u as char] + (cs1t + cs2) =~= (seq![u as char] + cs1t) + cs2);
            },
            None => {
                assert(dec_chars(b, pos + 4, (n - 1) as nat) is None);
            },
        }
    }
}

// ----- exec payload helpers -----

/// Relies on `String::push` of std: appends the character to the string.
#[verifier::external_body]
pub(crate) fn push_char(s: &mut String, c: char)
    ensures
        final(s)@ == old(s)@.push(c),
{
    s.push(c);
}

/// Append the little-endian image of `x`.
pub(crate) fn push_u64(out: &mut Vec<u8>, x: u64)
    ensures
        final(out)@ == old(out)@ + enc_u64(x),
{
    let mut b = u64_to_le_bytes(x);
    out.append(&mut b);
}

/// Read eight little-endian bytes at `pos`.
pub(crate) fn read_u64(b: &[u8], pos: usize) -> (r: Option<(u64, usize)>)
    ensures
        match (r, dec_u64(b@, pos as int)) {
            (Some((x, p)), Some((xv, pv))) => x == xv && p as int == pv && p <= b@.len(),
            (None, None) => true,
            _ => false,
        },
{
    if pos <= b.len() && b.len() - pos >= 8 {
        let chunk = slice_subrange(b, pos, pos + 8);
        let x = u64_from_le_bytes(chunk);
        Some((x, pos + 8))
    } else {
        None
    }
}

/// Append the four-byte code points of `s`.
pub(crate) fn push_chars(out: &mut Vec<u8>, s: &str)
    ensures
        final(out)@ == old(out)@ + enc_chars(s@),
{
    let n = s.unicode_len();
    let mut i: usize = 0;
    while i < n
        invariant
            i <= n,
            n == s@.len(),
            out@ == old(out)@ + enc_chars(s@.take(i as int)),
        decreases n - i,
    {
        let c = s.get_char(i);
        let mut cb = u32_to_le_bytes(c as u32);
        out.append(&mut cb);
        proof {
            assert(s@.take(i + 1) =~= s@.take(i as int).push(s@[i as int]));
            lemma_enc_chars_push(s@.take(i as int), s@[i as int]);
        }
        i = i + 1;
    }
    proof {
        assert(s@.take(n as int) =~= s@);
    }
}

/// Read `n` four-byte code points at `pos` into a string.
pub(crate) fn read_chars(b: &[u8], pos: usize, n: u64) -> (r: Option<(String, usize)>)
    requires
        pos <= b@.len(),
    ensures
        match (r, dec_chars(b@, pos as int, n as nat)) {
            (Some((s, p)), Some((sv, pv))) => s@ == sv && p as int == pv && p <= b@.len(),
            (None, None) => true,
            _ => false,
        },
{
    let mut out = String::new();
    let mut i: u64 = 0;
    let mut cur: usize = pos;
    while i < n
        invariant
            i <= n,
            pos <= cur <= b@.len(),
            dec_chars(b@, pos as int, i as nat) == Some::<(Seq<char>, int)>((
                out@,
                cur as int,
            )),
        decreases n - i,
    {
        proof {
            lemma_dec_chars_split(b@, pos as int, i as nat, n as nat);
        }
        if b.len() - cur < 4 {
            proof {
                assert(dec_chars(b@, cur as int, (n - i) as nat) is None);
            }
            return None;
        }
        let chunk = slice_subrange(b, cur, cur + 4);
        let u = u32_from_le_bytes(chunk);
        match char::from_u32(u) {
            Some(c) => {
                push_char(&mut out, c);
                proof {
                    assert(dec_chars(b@, cur + 4, 0nat) == Some::<(Seq<char>, int)>((
                        Seq::<char>::empty(),
                        cur + 4,
                    )));
                    assert(dec_chars(b@, cur as int, 1nat) == Some::<(Seq<char>, int)>((
                        seq![c],
                        cur + 4,
                    )));
                    lemma_dec_chars_split(b@, pos as int, i as nat, (i + 1) as nat);
                    assert(out@ =~= dec_chars(b@, pos as int, (i + 1) as nat).unwrap().0);
                }
                cur = cur + 4;
                i = i + 1;
            },
            None => {
                proof {
                    assert(dec_chars(b@, cur as int, (n - i) as nat) is None);
                }
                return None;
            },
        }
    }
    proof {
        lemma_dec_chars_split(b@, pos as int, n as nat, n as nat);
        assert(out@ + Seq::<char>::empty() =~= out@);
    }
    Some((out, cur))
}

// ----- binary fields -----

/// One tag byte, then the field's payload; strings and byte strings carry
/// a length prefix.
pub open spec fn enc_field_bin(f: FieldView) -> Seq<u8> {
    match f {
        FieldView::U(x) => seq![1u8] + enc_u64(x),
        FieldView::S(cs) => seq![2u8] + enc_u64(cs.len() as u64) + enc_chars(cs),
        FieldView::B(bs) => seq![3u8] + enc_u64(bs.len() as u64) + bs,
    }
}

/// Lengths fit the length prefixes.  Views of runtime values always do.
pub open spec fn field_wf(f: FieldView) -> bool {
    match f {
        FieldView::U(_) => true,
        FieldView::S(cs) => cs.len() <= u64::MAX,
        FieldView::B(bs) => bs.len() <= u64::MAX,
    }
}

/// Lengths fit the length prefixes, field-wise.
pub open spec fn record_wf(r: Seq<FieldView>) -> bool {
    r.len() <= u64::MAX && (forall|i: int| 0 <= i < r.len() ==> field_wf(#[trigger] r[i]))
}

/// Lengths fit the length prefixes, record-wise.
pub open spec fn doc_wf(d: Seq<Seq<FieldView>>) -> bool {
    d.len() <= u64::MAX && (forall|i: int| 0 <= i < d.len() ==> record_wf(#[trigger] d[i]))
}

/// What reading one field at `pos` yields.
pub open spec fn dec_field_bin(b: Seq<u8>, pos: int) -> Option<(FieldView, int)> {
    if 0 <= pos < b.len() {
        let t = b[pos];
        if t == 1 {
            match dec_u64(b, pos + 1) {
                Some((x, e)) => Some((FieldView::U(x), e)),
                None => None,
            }
        } else if t == 2 {
            match dec_u64(b, pos + 1) {
                Some((n, e1)) => match dec_chars(b, e1, n as nat) {
                    Some((cs, e)) => Some((FieldView::S(cs), e)),
                    None => None,
                },
                None => None,
            }
        } else if t == 3 {
            match dec_u64(b, pos + 1) {
                Some((n, e1)) => if e1 + n <= b.len() {
                    Some((FieldView::B(b.subrange(e1, e1 + n)), e1 + n))
                } else {
                    None
                },
                None => None,
            }
        } else {
            None
        }
    } else {
        None
    }
}

/// Reading what [`enc_field_bin`] wrote yields the field back.
pub proof fn lemma_dec_enc_field_bin(b: Seq<u8>, pos: int, f: FieldView)
    requires
        0 <= pos,
        field_wf(f),
        pos + enc_field_bin(f).len() <= b.len(),
        b.subrange(pos, pos + enc_field_bin(f).len()) == enc_field_bin(f),
    ensures
        dec_field_bin(b, pos) == Some((f, pos + enc_field_bin(f).len())),
{
    lemma_auto_spec_u64_to_from_le_bytes();
    let enc = enc_field_bin(f);
    assert(b[pos] == enc[0]) by {
        assert(b.subrange(pos, pos + enc.len())[0] == b[pos]);
    }
    match f {
        FieldView::U(x) => {
            assert(enc.len() == 9);
            assert(b.subrange(pos + 1, pos + 9) =~= enc.subrange(1, 9));
            assert(enc.subrange(1, 9) =~= enc_u64(x));
        },
        FieldView::S(cs) => {
            lemma_enc_chars_len(cs);
            assert(enc.len() == 9 + 4 * cs.len());
            assert(b.subrange(pos + 1, pos + 9) =~= enc.subrange(1, 9));
            assert(enc.subrange(1, 9) =~= enc_u64(cs.len() as u64));
            assert(dec_u64(b, pos + 1) == Some::<(u64, int)>((cs.len() as u64, pos + 9)));
            assert(b.subrange(pos + 9, pos + 9 + 4 * cs.len()) =~= enc.subrange(
                9,
                9 + 4 * cs.len() as int,
            ));
            assert(enc.subrange(9, 9 + 4 * cs.len() as int) =~= enc_chars(cs));
            lemma_dec_enc_chars(b, pos + 9, cs);
            assert((cs.len() as u64) as nat == cs.len());
        },
        FieldView::B(bs) => {
            assert(enc.len() == 9 + bs.len());
            assert(b.subrange(pos + 1, pos + 9) =~= enc.subrange(1, 9));
            assert(enc.subrange(1, 9) =~= enc_u64(bs.len() as u64));
            assert(dec_u64(b, pos + 1) == Some::<(u64, int)>((bs.len() as u64, pos + 9)));
            assert(b.subrange(pos + 9, pos + 9 + bs.len()) =~= enc.subrange(
                9,
                9 + bs.len() as int,
            ));
            assert(enc.subrange(9, 9 + bs.len() as int) =~= bs);
        },
    }
}

/// The fields of one record, one after another.
pub open spec fn enc_fields_bin(fs: Seq<FieldView>) -> Seq<u8>
    decreases fs.len(),
{
    if fs.len() == 0 {
        Seq::empty()
    } else {
        enc_field_bin(fs[0]) + enc_fields_bin(fs.drop_first())
    }
}

/// What reading `n` fields at `pos` yields.
pub open spec fn dec_fields_bin(b: Seq<u8>, pos: int, n: nat) -> Option<(Seq<FieldView>, int)>
    decreases n,
{
    if n == 0 {
        if 0 <= pos <= b.len() {
            Some((Seq::empty(), pos))
        } else {
            None
        }
    } else {
        match dec_field_bin(b, pos) {
            Some((f, e)) => match dec_fields_bin(b, e, (n - 1) as nat) {
                Some((fs, e2)) => Some((seq![f] + fs, e2)),
                None => None,
            },
            None => None,
        }
    }
}

/// Appending one field appends its encoding.
pub proof fn lemma_enc_fields_bin_push(fs: Seq<FieldView>, f: FieldView)
    ensures
        enc_fields_bin(fs.push(f)) == enc_fields_bin(fs) + enc_field_bin(f),
    decreases fs.len(),
{
    reveal_with_fuel(enc_fields_bin, 3);
    if fs.len() == 0 {
        assert(fs.push(f).drop_first() =~= Seq::<FieldView>::empty());
        assert(enc_fields_bin(fs.push(f)) =~= enc_fields_bin(fs) + enc_field_bin(f));
    } else {
        assert(fs.push(f).drop_first() =~= fs.drop_first().push(f));
        lemma_enc_fields_bin_push(fs.drop_first(), f);
        assert(enc_fields_bin(fs.push(f)) =~= enc_fields_bin(fs) + enc_field_bin(f));
    }
}

/// Reading what [`enc_fields_bin`] wrote yields the fields back.
pub proof fn lemma_dec_enc_fields_bin(b: Seq<u8>, pos: int, fs: Seq<FieldView>)
    requires
        0 <= pos,
        forall|i: int| 0 <= i < fs.len() ==> field_wf(#[trigger] fs[i]),
        pos + enc_fields_bin(fs).len() <= b.len(),
        b.subrange(pos, pos + enc_fields_bin(fs).len()) == enc_fields_bin(fs),
    ensures
        dec_fields_bin(b, pos, fs.len()) == Some((fs, pos + enc_fields_bin(fs).len())),
    decreases fs.len(),
{
    if fs.len() == 0 {
    } else {
        let e0 = enc_field_bin(fs[0]);
        let rest = enc_fields_bin(fs.drop_first());
        assert(enc_fields_bin(fs) == e0 + rest);
        assert(b.subrange(pos, pos + e0.len() as int) =~= e0) by {
            assert(forall|k: int|
                0 <= k < e0.len() ==> b.subrange(pos, pos + enc_fields_bin(fs).len())[k]
                    == #[trigger] e0[k]);
        }
        lemma_dec_enc_field_bin(b, pos, fs[0]);
        let mid = pos + e0.len() as int;
        assert(b.subrange(mid, mid + rest.len() as int) =~= rest) by {
            assert(forall|k: int|
                0 <= k < rest.len() ==> b.subrange(pos, pos + enc_fields_bin(fs).len())[
                    e0.len() + k] == #[trigger] rest[k]);
        }
        lemma_dec_enc_fields_bin(b, mid, fs.drop_first());
        assert(seq![fs[0]] + fs.drop_first() =~= fs);
    }
}

/// A successful partial field parse composes with the rest.
pub proof fn lemma_dec_fields_bin_split(b: Seq<u8>, pos: int, i: nat, n: nat)
    requires
        i <= n,
        dec_fields_bin(b, pos, i) is Some,
    ensures
        ({
            let (fs1, m) = dec_fields_bin(b, pos, i).unwrap();
            dec_fields_bin(b, pos, n) == match dec_fields_bin(b, m, (n - i) as nat) {
                Some((fs2, e)) => Some::<(Seq<FieldView>, int)>((fs1 + fs2, e)),
                None => None::<(Seq<FieldView>, int)>,
            }
        }),
    decreases i,
{
    let (fs1, m) = dec_fields_bin(b, pos, i).unwrap();
    if i == 0 {
        assert(fs1 =~= Seq::<FieldView>::empty());
        match dec_fields_bin(b, m, n) {
            Some((fs2, e)) => {
                assert(fs1 + fs2 =~= fs2);
            },
            None => {},
        }
    } else {
        let (f0, e0) = dec_field_bin(b, pos).unwrap();
        let (fs1t, _m2) = dec_fields_bin(b, e0, (i - 1) as nat).unwrap();
        lemma_dec_fields_bin_split(b, e0, (i - 1) as nat, (n - 1) as nat);
        match dec_fields_bin(b, m, (n - i) as nat) {
            Some((fs2, e)) => {
                assert(dec_fields_bin(b, e0, (n - 1) as nat) == Some::<(Seq<FieldView>, int)>((
                    fs1t + fs2,
                    e,
                )));
                assert(seq![f0] + (fs1t + fs2) =~= (seq![f0] + fs1t) + fs2);
            },
            None => {
                assert(dec_fields_bin(b, e0, (n - 1) as nat) is None);
            },
        }
    }
}

// ----- binary records and documents -----

/// A field count, then the fields.
pub open spec fn enc_record_bin(r: Seq<FieldView>) -> Seq<u8> {
    enc_u64(r.len() as u64) + enc_fields_bin(r)
}

/// What reading one record at `pos` yields.
pub open spec fn dec_record_bin(b: Seq<u8>, pos: int) -> Option<(Seq<FieldView>, int)> {
    match dec_u64(b, pos) {
        Some((n, e)) => dec_fields_bin(b, e, n as nat),
        None => None,
    }
}

/// Reading what [`enc_record_bin`] wrote yields the record back.
pub proof fn lemma_dec_enc_record_bin(b: Seq<u8>, pos: int, r: Seq<FieldView>)
    requires
        0 <= pos,
        record_wf(r),
        pos + enc_record_bin(r).len() <= b.len(),
        b.subrange(pos, pos + enc_record_bin(r).len()) == enc_record_bin(r),
    ensures
        dec_record_bin(b, pos) == Some((r, pos + enc_record_bin(r).len())),
{
    lemma_auto_spec_u64_to_from_le_bytes();
    let enc = enc_record_bin(r);
    let fenc = enc_fields_bin(r);
    assert(b.subrange(pos, pos + 8) =~= enc.subrange(0, 8));
    assert(enc.subrange(0, 8) =~= enc_u64(r.len() as u64));
    assert(dec_u64(b, pos) == Some::<(u64, int)>((r.len() as u64, pos + 8)));
    assert(b.subrange(pos + 8, pos + 8 + fenc.len() as int) =~= fenc) by {
        assert(forall|k: int|
            0 <= k < fenc.len() ==> b.subrange(pos, pos + enc.len())[8 + k]
                == #[trigger] fenc[k]);
    }
    lemma_dec_enc_fields_bin(b, pos + 8, r);
    assert((r.len() as u64) as nat == r.len());
}

/// The records of one document, one after another.
pub open spec fn enc_records_bin(rs: Seq<Seq<FieldView>>) -> Seq<u8>
    decreases rs.len(),
{
    if rs.len() == 0 {
        Seq::empty()
    } else {
        enc_record_bin(rs[0]) + enc_records_bin(rs.drop_first())
    }
}

/// What reading `n` records at `pos` yields.
pub open spec fn dec_records_bin(b: Seq<u8>, pos: int, n: nat) -> Option<(
    Seq<Seq<FieldView>>,
    int,
)>
    decreases n,
{
    if n == 0 {
        if 0 <= pos <= b.len() {
            Some((Seq::empty(), pos))
        } else {
            None
        }
    } else {
        match dec_record_bin(b, pos) {
            Some((r, e)) => match dec_records_bin(b, e, (n - 1) as nat) {
                Some((rs, e2)) => Some((seq![r] + rs, e2)),
                None => None,
            },
            None => None,
        }
    }
}

/// Appending one record appends its encoding.
pub proof fn lemma_enc_records_bin_push(rs: Seq<Seq<FieldView>>, r: Seq<FieldView>)
    ensures
        enc_records_bin(rs.push(r)) == enc_records_bin(rs) + enc_record_bin(r),
    decreases rs.len(),
{
    reveal_with_fuel(enc_records_bin, 3);
    if rs.len() == 0 {
        assert(rs.push(r).drop_first() =~= Seq::<Seq<FieldView>>::empty());
        assert(enc_records_bin(rs.push(r)) =~= enc_records_bin(rs) + enc_record_bin(r));
    } else {
        assert(rs.push(r).drop_first() =~= rs.drop_first().push(r));
        lemma_enc_records_bin_push(rs.drop_first(), r);
        assert(enc_records_bin(rs.push(r)) =~= enc_records_bin(rs) + enc_record_bin(r));
    }
}

/// Reading what [`enc_records_bin`] wrote yields the records back.
pub proof fn lemma_dec_enc_records_bin(b: Seq<u8>, pos: int, rs: Seq<Seq<FieldView>>)
    requires
        0 <= pos,
        forall|i: int| 0 <= i < rs.len() ==> record_wf(#[trigger] rs[i]),
        pos + enc_records_bin(rs).len() <= b.len(),
        b.subrange(pos, pos + enc_records_bin(rs).len()) == enc_records_bin(rs),
    ensures
        dec_records_bin(b, pos, rs.len()) == Some((rs, pos + enc_records_bin(rs).len())),
    decreases rs.len(),
{
    if rs.len() == 0 {
    } else {
        let e0 = enc_record_bin(rs[0]);
        let rest = enc_records_bin(rs.drop_first());
        assert(enc_records_bin(rs) == e0 + rest);
        assert(b.subrange(pos, pos + e0.len() as int) =~= e0) by {
            assert(forall|k: int|
                0 <= k < e0.len() ==> b.subrange(pos, pos + enc_records_bin(rs).len())[k]
                    == #[trigger] e0[k]);
        }
        lemma_dec_enc_record_bin(b, pos, rs[0]);
        let mid = pos + e0.len() as int;
        assert(b.subrange(mid, mid + rest.len() as int) =~= rest) by {
            assert(forall|k: int|
                0 <= k < rest.len() ==> b.subrange(pos, pos + enc_records_bin(rs).len())[
                    e0.len() + k] == #[trigger] rest[k]);
        }
        lemma_dec_enc_records_bin(b, mid, rs.drop_first());
        assert(seq![rs[0]] + rs.drop_first() =~= rs);
    }
}

/// A successful partial record parse composes with the rest.
pub proof fn lemma_dec_records_bin_split(b: Seq<u8>, pos: int, i: nat, n: nat)
    requires
        i <= n,
        dec_records_bin(b, pos, i) is Some,
    ensures
        ({
            let (rs1, m) = dec_records_bin(b, pos, i).unwrap();
            dec_records_bin(b, pos, n) == match dec_records_bin(b, m, (n - i) as nat) {
                Some((rs2, e)) => Some::<(Seq<Seq<FieldView>>, int)>((rs1 + rs2, e)),
                None => None::<(Seq<Seq<FieldView>>, int)>,
            }
        }),
    decreases i,
{
    let (rs1, m) = dec_records_bin(b, pos, i).unwrap();
    if i == 0 {
        assert(rs1 =~= Seq::<Seq<FieldView>>::empty());
        match dec_records_bin(b, m, n) {
            Some((rs2, e)) => {
                assert(rs1 + rs2 =~= rs2);
            },
            None => {},
        }
    } else {
        let (r0, e0) = dec_record_bin(b, pos).unwrap();
        let (rs1t, _m2) = dec_records_bin(b, e0, (i - 1) as nat).unwrap();
        lemma_dec_records_bin_split(b, e0, (i - 1) as nat, (n - 1) as nat);
        match dec_records_bin(b, m, (n - i) as nat) {
            Some((rs2, e)) => {
                assert(dec_records_bin(b, e0, (n - 1) as nat) == Some::<(
                    Seq<Seq<FieldView>>,
                    int,
                )>((rs1t + rs2, e)));
                assert(seq![r0] + (rs1t + rs2) =~= (seq![r0] + rs1t) + rs2);
            },
            None => {
                assert(dec_records_bin(b, e0, (n - 1) as nat) is None);
            },
        }
    }
}

/// The magic prefix of a compact-binary document.
pub open spec fn bin_magic() -> Seq<u8> {
    seq![212u8, 108u8, 49u8, 1u8]
}

/// Magic prefix, record count, records.
pub open spec fn enc_doc_bin(d: Seq<Seq<FieldView>>) -> Seq<u8> {
    bin_magic() + enc_u64(d.len() as u64) + enc_records_bin(d)
}

/// What a whole compact-binary document parses to; the byte string must be
/// consumed exactly.
pub open spec fn dec_doc_bin(b: Seq<u8>) -> Option<Seq<Seq<FieldView>>> {
    if b.len() >= 12 && b.subrange(0, 4) == bin_magic() {
        match dec_u64(b, 4) {
            Some((n, e)) => match dec_records_bin(b, e, n as nat) {
                Some((rs, e2)) => if e2 == b.len() {
                    Some(rs)
                } else {
                    None
                },
                None => None,
            },
            None => None,
        }
    } else {
        None
    }
}

/// Parsing what [`enc_doc_bin`] wrote yields the document back.
pub proof fn lemma_dec_enc_doc_bin(d: Seq<Seq<FieldView>>)
    requires
        doc_wf(d),
    ensures
        dec_doc_bin(enc_doc_bin(d)) == Some(d),
{
    lemma_auto_spec_u64_to_from_le_bytes();
    let b = enc_doc_bin(d);
    let renc = enc_records_bin(d);
    assert(b.len() == 12 + renc.len());
    assert(b.subrange(0, 4) =~= bin_magic());
    assert(b.subrange(4, 12) =~= enc_u64(d.len() as u64));
    assert(dec_u64(b, 4) == Some::<(u64, int)>((d.len() as u64, 12)));
    assert(b.subrange(12, 12 + renc.len() as int) =~= renc);
    lemma_dec_enc_records_bin(b, 12, d);
    assert((d.len() as u64) as nat == d.len());
}

// ----- exec encoders (binary) -----

/// Append one field's binary encoding.
pub(crate) fn push_field_bin(out: &mut Vec<u8>, f: &FieldVal)
    ensures
        final(out)@ == old(out)@ + enc_field_bin(f@),
        field_wf(f@),
{
    match f {
        FieldVal::U(x) => {
            out.push(1u8);
            push_u64(out, *x);
            proof {
                assert(out@ =~= old(out)@ + enc_field_bin(f@));
            }
        },
        FieldVal::S(sv) => {
            out.push(2u8);
            push_u64(out, sv.as_str().unicode_len() as u64);
            push_chars(out, sv.as_str());
            proof {
                assert(out@ =~= old(out)@ + enc_field_bin(f@));
            }
        },
        FieldVal::B(bv) => {
            out.push(3u8);
            push_u64(out, bv.len() as u64);
            out.extend_from_slice(bv.as_slice());
            proof {
                assert(out@ =~= old(out)@ + enc_field_bin(f@));
            }
        },
    }
}

/// Append one record's binary encoding.
pub(crate) fn push_record_bin(out: &mut Vec<u8>, r: &Vec<FieldVal>)
    ensures
        final(out)@ == old(out)@ + enc_record_bin(field_views(r@)),
        record_wf(field_views(r@)),
{
    push_u64(out, r.len() as u64);
    let n = r.len();
    let mut i: usize = 0;
    while i < n
        invariant
            i <= n,
            n == r@.len(),
            out@ == old(out)@ + enc_u64(r@.len() as u64) + enc_fields_bin(
                field_views(r@.take(i as int)),
            ),
            forall|k: int| 0 <= k < i ==> field_wf(#[trigger] field_views(r@)[k]),
        decreases n - i,
    {
        push_field_bin(out, &r[i]);
        proof {
            assert(field_views(r@.take(i + 1)) =~= field_views(r@.take(i as int)).push(
                r@[i as int]@,
            ));
            lemma_enc_fields_bin_push(field_views(r@.take(i as int)), r@[i as int]@);
            assert(out@ =~= old(out)@ + enc_u64(r@.len() as u64) + enc_fields_bin(
                field_views(r@.take(i + 1)),
            ));
        }
        i = i + 1;
    }
    proof {
        assert(r@.take(n as int) =~= r@);
        assert(field_views(r@.take(n as int)) =~= field_views(r@));
        assert(out@ =~= old(out)@ + enc_record_bin(field_views(r@)));
    }
}

/// Encode a whole document in the compact-binary form.
pub fn encode_doc_bin(d: &Vec<Vec<FieldVal>>) -> (out: Vec<u8>)
    ensures
        out@ == enc_doc_bin(doc_views(d@)),
        doc_wf(doc_views(d@)),
        dec_doc_bin(out@) == Some(doc_views(d@)),
{
    let mut out: Vec<u8> = Vec::new();
    out.push(212u8);
    out.push(108u8);
    out.push(49u8);
    out.push(1u8);
    proof {
        assert(out@ =~= bin_magic());
    }
    push_u64(&mut out, d.len() as u64);
    let n = d.len();
    let mut i: usize = 0;
    while i < n
        invariant
            i <= n,
            n == d@.len(),
            out@ == bin_magic() + enc_u64(d@.len() as u64) + enc_records_bin(
                doc_views(d@.take(i as int)),
            ),
            forall|k: int| 0 <= k < i ==> record_wf(#[trigger] doc_views(d@)[k]),
        decreases n - i,
    {
        push_record_bin(&mut out, &d[i]);
        proof {
            assert(doc_views(d@.take(i + 1)) =~= doc_views(d@.take(i as int)).push(
                field_views(d@[i as int]@),
            ));
            lemma_enc_records_bin_push(
                doc_views(d@.take(i as int)),
                field_views(d@[i as int]@),
            );
            assert(out@ =~= bin_magic() + enc_u64(d@.len() as u64) + enc_records_bin(
                doc_views(d@.take(i + 1)),
            ));
        }
        i = i + 1;
    }
    proof {
        assert(d@.take(n as int) =~= d@);
        assert(doc_views(d@.take(n as int)) =~= doc_views(d@));
        lemma_dec_enc_doc_bin(doc_views(d@));
    }
    out
}

// ----- exec parsers (binary) -----

/// Read one field at `pos`.
pub(crate) fn parse_field_bin(b: &[u8], pos: usize) -> (r: Option<(FieldVal, usize)>)
    ensures
        match (r, dec_field_bin(b@, pos as int)) {
            (Some((f, p)), Some((fv, pv))) => f@ == fv && p as int == pv && p <= b@.len(),
            (None, None) => true,
            _ => false,
        },
{
    if pos >= b.len() {
        return None;
    }
    let t = *vstd::slice::slice_index_get(b, pos);
    if t == 1 {
        match read_u64(b, pos + 1) {
            Some((x, e)) => Some((FieldVal::U(x), e)),
            None => None,
        }
    } else if t == 2 {
        match read_u64(b, pos + 1) {
            Some((n, e1)) => {
                match read_chars(b, e1, n) {
                    Some((sv, e)) => Some((FieldVal::S(sv), e)),
                    None => None,
                }
            },
            None => None,
        }
    } else if t == 3 {
        match read_u64(b, pos + 1) {
            Some((n, e1)) => {
                if (b.len() - e1) as u64 >= n {
                    let e2 = e1 + (n as usize);
                    let bytes = slice_to_vec(slice_subrange(b, e1, e2));
                    Some((FieldVal::B(bytes), e2))
                } else {
                    None
                }
            },
            None => None,
        }
    } else {
        None
    }
}

/// Read one record at `pos`.
pub(crate) fn parse_record_bin(b: &[u8], pos: usize) -> (r: Option<(Vec<FieldVal>, usize)>)
    ensures
        match (r, dec_record_bin(b@, pos as int)) {
            (Some((fs, p)), Some((fsv, pv))) => field_views(fs@) == fsv && p as int == pv && p
                <= b@.len(),
            (None, None) => true,
            _ => false,
        },
{
    let (n, start) = match read_u64(b, pos) {
        Some(v) => v,
        None => {
            return None;
        },
    };
    let mut fields: Vec<FieldVal> = Vec::new();
    let mut cur: usize = start;
    let mut i: u64 = 0;
    while i < n
        invariant
            i <= n,
            cur <= b@.len(),
            dec_u64(b@, pos as int) == Some::<(u64, int)>((n, start as int)),
            dec_fields_bin(b@, start as int, i as nat) == Some::<(Seq<FieldView>, int)>((
                field_views(fields@),
                cur as int,
            )),
        decreases n - i,
    {
        proof {
            lemma_dec_fields_bin_split(b@, start as int, i as nat, n as nat);
        }
        match parse_field_bin(b, cur) {
            Some((f, e)) => {
                fields.push(f);
                proof {
                    assert(dec_fields_bin(b@, e as int, 0nat) == Some::<(
                        Seq<FieldView>,
                        int,
                    )>((Seq::<FieldView>::empty(), e as int)));
                    assert(dec_fields_bin(b@, cur as int, 1nat) == Some::<(
                        Seq<FieldView>,
                        int,
                    )>((seq![f@], e as int)));
                    lemma_dec_fields_bin_split(b@, start as int, i as nat, (i + 1) as nat);
                    assert(field_views(fields@) =~= dec_fields_bin(
                        b@,
                        start as int,
                        (i + 1) as nat,
                    ).unwrap().0);
                }
                cur = e;
                i = i + 1;
            },
            None => {
                proof {
                    assert(dec_fields_bin(b@, cur as int, (n - i) as nat) is None);
                }
                return None;
            },
        }
    }
    proof {
        lemma_dec_fields_bin_split(b@, start as int, n as nat, n as nat);
        assert(field_views(fields@) + Seq::<FieldView>::empty() =~= field_views(fields@));
    }
    Some((fields, cur))
}

/// Parse a whole compact-binary document.
pub fn parse_doc_bin(b: &[u8]) -> (r: Option<Vec<Vec<FieldVal>>>)
    ensures
        match (r, dec_doc_bin(b@)) {
            (Some(d), Some(dv)) => doc_views(d@) == dv,
            (None, None) => true,
            _ => false,
        },
{
    if b.len() < 12 {
        return None;
    }
    let m0 = *vstd::slice::slice_index_get(b, 0);
    let m1 = *vstd::slice::slice_index_get(b, 1);
    let m2 = *vstd::slice::slice_index_get(b, 2);
    let m3 = *vstd::slice::slice_index_get(b, 3);
    if !(m0 == 212 && m1 == 108 && m2 == 49 && m3 == 1) {
        proof {
            if b@.subrange(0, 4) == bin_magic() {
                assert(b@[0] == 212 && b@[1] == 108 && b@[2] == 49 && b@[3] == 1) by {
                    assert(b@.subrange(0, 4)[0] == b@[0]);
                    assert(b@.subrange(0, 4)[1] == b@[1]);
                    assert(b@.subrange(0, 4)[2] == b@[2]);
                    assert(b@.subrange(0, 4)[3] == b@[3]);
                }
            }
        }
        return None;
    }
    proof {
        assert(b@.subrange(0, 4) =~= bin_magic());
    }
    let (n, start) = match read_u64(b, 4) {
        Some(v) => v,
        None => {
            return None;
        },
    };
    let mut records: Vec<Vec<FieldVal>> = Vec::new();
    let mut cur: usize = start;
    let mut i: u64 = 0;
    while i < n
        invariant
            i <= n,
            cur <= b@.len(),
            b@.len() >= 12,
            b@.subrange(0, 4) == bin_magic(),
            dec_u64(b@, 4) == Some::<(u64, int)>((n, start as int)),
            dec_records_bin(b@, start as int, i as nat) == Some::<(Seq<Seq<FieldView>>, int)>((
                doc_views(records@),
                cur as int,
            )),
        decreases n - i,
    {
        proof {
            lemma_dec_records_bin_split(b@, start as int, i as nat, n as nat);
        }
        match parse_record_bin(b, cur) {
            Some((rec, e)) => {
                records.push(rec);
                proof {
                    assert(dec_records_bin(b@, e as int, 0nat) == Some::<(
                        Seq<Seq<FieldView>>,
                        int,
                    )>((Seq::<Seq<FieldView>>::empty(), e as int)));
                    assert(dec_records_bin(b@, cur as int, 1nat) == Some::<(
                        Seq<Seq<FieldView>>,
                        int,
                    )>((seq![field_views(rec@)], e as int)));
                    lemma_dec_records_bin_split(b@, start as int, i as nat, (i + 1) as nat);
                    assert(doc_views(records@) =~= dec_records_bin(
                        b@,
                        start as int,
                        (i + 1) as nat,
                    ).unwrap().0);
                }
                cur = e;
                i = i + 1;
            },
            None => {
                proof {
                    assert(dec_records_bin(b@, cur as int, (n - i) as nat) is None);
                }
                return None;
            },
        }
    }
    proof {
        lemma_dec_records_bin_split(b@, start as int, n as nat, n as nat);
        assert(doc_views(records@) + Seq::<Seq<FieldView>>::empty() =~= doc_views(records@));
    }
    if cur == b.len() {
        Some(records)
    } else {
        None
    }
}

/// Appending one record to a document appends its field views.
pub proof fn lemma_doc_views_push(d: Seq<Vec<FieldVal>>, r: Vec<FieldVal>)
    ensures
        doc_views(d.push(r)) == doc_views(d).push(field_views(r@)),
{
    assert(doc_views(d.push(r)) =~= doc_views(d).push(field_views(r@)));
}

} // verus!
