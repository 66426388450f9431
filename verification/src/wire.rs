//! The byte layer of the wire format.
//!
//! A document is framed as: a 4-byte little-endian size, the serialized
//! fields, and a terminating NUL. Each field is a tag byte, the key as a
//! NUL-terminated byte string, and the value's payload. Array items are
//! fields whose keys are the decimal item indices. The parser ignores the
//! size prefixes and stops at the terminators; the encoder writes correct
//! sizes, so encoded documents round-trip and stay exchangeable with other
//! readers of the same framing.

use vstd::prelude::*;
use vstd::bytes::*;
use vstd::slice::{slice_subrange, slice_to_vec};
use crate::model::{Document, Entry, SpecValue, Value, lemma_wf_doc_entry, lemma_wf_items_entry, lemma_wf_items_pointwise, wf_doc, wf_key, wf_value};

verus! {

broadcast use vstd::std_specs::vec::axiom_vec_index_decreases;

pub const TAG_DOUBLE: u8 = 0x01;

pub const TAG_TEXT: u8 = 0x02;

pub const TAG_DOC: u8 = 0x03;

pub const TAG_ARRAY: u8 = 0x04;

pub const TAG_ID: u8 = 0x07;

pub const TAG_BOOL: u8 = 0x08;

pub const TAG_DATETIME: u8 = 0x09;

pub const TAG_NULL: u8 = 0x0a;

pub const TAG_INT32: u8 = 0x10;

pub const TAG_INT64: u8 = 0x12;

// ---------- integer representations ----------

/// The two's-complement image of an `i64`.
pub open spec fn u64_of_i64(i: i64) -> u64 {
    if i >= 0 {
        i as u64
    } else {
        (i + 0x1_0000_0000_0000_0000) as u64
    }
}

/// Inverse of `u64_of_i64`.
pub open spec fn i64_of_u64(u: u64) -> i64 {
    if u < 0x8000_0000_0000_0000 {
        u as i64
    } else {
        (u - 0x1_0000_0000_0000_0000) as i64
    }
}

pub proof fn lemma_i64_round_trip(i: i64)
    ensures
        i64_of_u64(u64_of_i64(i)) == i,
{
}

/// The two's-complement image of an `i32`.
pub open spec fn u32_of_i32(i: i32) -> u32 {
    if i >= 0 {
        i as u32
    } else {
        (i + 0x1_0000_0000) as u32
    }
}

/// Inverse of `u32_of_i32`.
pub open spec fn i32_of_u32(u: u32) -> i32 {
    if u < 0x8000_0000 {
        u as i32
    } else {
        (u - 0x1_0000_0000) as i32
    }
}

pub proof fn lemma_i32_round_trip(i: i32)
    ensures
        i32_of_u32(u32_of_i32(i)) == i,
{
}

/// The size prefix of a document whose field bytes have length `n`.
pub open spec fn doc_size(n: nat) -> u32 {
    (((n + 5) as int) % 0x1_0000_0000) as u32
}

/// The length prefix of a text payload holding `n` bytes.
pub open spec fn text_size(n: nat) -> u32 {
    (((n + 1) as int) % 0x1_0000_0000) as u32
}

/// The decimal digits of `n`, as ASCII bytes.
pub open spec fn dec_digits(n: nat) -> Seq<u8>
    decreases n,
{
    if n < 10 {
        seq![(48 + n) as u8]
    } else {
        dec_digits((n / 10) as nat).push((48 + n % 10) as u8)
    }
}

pub proof fn lemma_dec_digits_wf(n: nat)
    ensures
        wf_key(dec_digits(n)),
        dec_digits(n).len() >= 1,
    decreases n,
{
    if n < 10 {
        assert(dec_digits(n) == seq![(48 + n) as u8]);
        assert(forall|i: int| 0 <= i < 1 ==> dec_digits(n)[i] != 0u8);
    } else {
        lemma_dec_digits_wf((n / 10) as nat);
        let p = dec_digits((n / 10) as nat);
        assert(dec_digits(n) == p.push((48 + n % 10) as u8));
        assert forall|i: int| 0 <= i < dec_digits(n).len() implies dec_digits(n)[i] != 0u8 by {
            if i < p.len() {
                assert(dec_digits(n)[i] == p[i]);
            }
        }
    }
}

// ---------- serialization ----------

pub open spec fn tag_of(v: SpecValue) -> u8 {
    match v {
        SpecValue::Double(_) => TAG_DOUBLE,
        SpecValue::Int32(_) => TAG_INT32,
        SpecValue::Int64(_) => TAG_INT64,
        SpecValue::DateTime(_) => TAG_DATETIME,
        SpecValue::Text(_) => TAG_TEXT,
        SpecValue::Bool(_) => TAG_BOOL,
        SpecValue::Null => TAG_NULL,
        SpecValue::Id(_) => TAG_ID,
        SpecValue::Doc(_) => TAG_DOC,
        SpecValue::Array(_) => TAG_ARRAY,
    }
}

/// The payload bytes of one value (without its tag and key).
pub open spec fn ser_value(v: SpecValue) -> Seq<u8>
    decreases v, 0int,
{
    match v {
        SpecValue::Double(b) => spec_u64_to_le_bytes(b),
        SpecValue::Int32(i) => spec_u32_to_le_bytes(u32_of_i32(i)),
        SpecValue::Int64(i) => spec_u64_to_le_bytes(u64_of_i64(i)),
        SpecValue::DateTime(t) => spec_u64_to_le_bytes(u64_of_i64(t)),
        SpecValue::Text(b) => spec_u32_to_le_bytes(text_size(b.len())) + b + seq![0u8],
        SpecValue::Bool(b) => seq![if b { 1u8 } else { 0u8 }],
        SpecValue::Null => Seq::empty(),
        SpecValue::Id(b) => b,
        SpecValue::Doc(es) => ser_doc(es),
        SpecValue::Array(vs) => {
            let body = ser_items(vs, 0);
            spec_u32_to_le_bytes(doc_size(body.len())) + body + seq![0u8]
        },
    }
}

/// The serialized fields of a document, from index `i` on.
pub open spec fn ser_entries(es: Seq<(Seq<u8>, SpecValue)>, i: int) -> Seq<u8>
    decreases es, es.len() - i,
{
    if 0 <= i < es.len() {
        seq![tag_of(es[i].1)] + es[i].0 + seq![0u8] + ser_value(es[i].1) + ser_entries(es, i + 1)
    } else {
        Seq::empty()
    }
}

/// The serialized items of an array, from index `i` on, keyed by decimal index.
pub open spec fn ser_items(vs: Seq<SpecValue>, i: int) -> Seq<u8>
    decreases vs, vs.len() - i,
{
    if 0 <= i < vs.len() {
        seq![tag_of(vs[i])] + dec_digits(i as nat) + seq![0u8] + ser_value(vs[i]) + ser_items(
            vs,
            i + 1,
        )
    } else {
        Seq::empty()
    }
}

/// A whole document: size prefix, fields, terminator.
pub open spec fn ser_doc(es: Seq<(Seq<u8>, SpecValue)>) -> Seq<u8>
    decreases es, es.len() + 1,
{
    let body = ser_entries(es, 0);
    spec_u32_to_le_bytes(doc_size(body.len())) + body + seq![0u8]
}

// ---------- parsing ----------

/// Parse a NUL-terminated key; return it and the rest.
pub open spec fn parse_key(s: Seq<u8>) -> Option<(Seq<u8>, Seq<u8>)>
    decreases s.len(),
{
    if s.len() == 0 {
        None
    } else if s[0] == 0u8 {
        Some((Seq::<u8>::empty(), s.drop_first()))
    } else {
        match parse_key(s.drop_first()) {
            Some((k, rest)) => Some((seq![s[0]] + k, rest)),
            None => None,
        }
    }
}

/// Parse one value payload of the given tag; return it and the rest.
pub open spec fn parse_value(tag: u8, s: Seq<u8>) -> Option<(SpecValue, Seq<u8>)>
    decreases s.len(), 0int,
{
    if tag == TAG_INT64 {
        if s.len() >= 8 {
            Some((SpecValue::Int64(i64_of_u64(spec_u64_from_le_bytes(s.take(8)))), s.skip(8)))
        } else {
            None
        }
    } else if tag == TAG_DATETIME {
        if s.len() >= 8 {
            Some((SpecValue::DateTime(i64_of_u64(spec_u64_from_le_bytes(s.take(8)))), s.skip(8)))
        } else {
            None
        }
    } else if tag == TAG_DOUBLE {
        if s.len() >= 8 {
            Some((SpecValue::Double(spec_u64_from_le_bytes(s.take(8))), s.skip(8)))
        } else {
            None
        }
    } else if tag == TAG_INT32 {
        if s.len() >= 4 {
            Some((SpecValue::Int32(i32_of_u32(spec_u32_from_le_bytes(s.take(4)))), s.skip(4)))
        } else {
            None
        }
    } else if tag == TAG_TEXT {
        if s.len() >= 4 {
            let n = spec_u32_from_le_bytes(s.take(4)) as int;
            if 1 <= n && 4 + n <= s.len() && s[4 + n - 1] == 0u8 {
                Some((SpecValue::Text(s.subrange(4, 4 + n - 1)), s.skip(4 + n)))
            } else {
                None
            }
        } else {
            None
        }
    } else if tag == TAG_BOOL {
        if s.len() >= 1 && (s[0] == 0u8 || s[0] == 1u8) {
            Some((SpecValue::Bool(s[0] == 1u8), s.drop_first()))
        } else {
            None
        }
    } else if tag == TAG_NULL {
        Some((SpecValue::Null, s))
    } else if tag == TAG_ID {
        if s.len() >= 12 {
            Some((SpecValue::Id(s.take(12)), s.skip(12)))
        } else {
            None
        }
    } else if tag == TAG_DOC {
        if s.len() >= 4 {
            match parse_entries(s.skip(4)) {
                Some((es, rest)) => Some((SpecValue::Doc(es), rest)),
                None => None,
            }
        } else {
            None
        }
    } else if tag == TAG_ARRAY {
        if s.len() >= 4 {
            match parse_entries(s.skip(4)) {
                Some((es, rest)) => Some(
                    (
                        SpecValue::Array(
                            Seq::new(
                                es.len(),
                                |i: int|
                                    if 0 <= i < es.len() {
                                        es[i].1
                                    } else {
                                        SpecValue::Null
                                    },
                            ),
                        ),
                        rest,
                    ),
                ),
                None => None,
            }
        } else {
            None
        }
    } else {
        None
    }
}

/// Parse fields up to and including the terminating NUL; return them and the rest.
pub open spec fn parse_entries(s: Seq<u8>) -> Option<(Seq<(Seq<u8>, SpecValue)>, Seq<u8>)>
    decreases s.len(), 1int,
{
    if s.len() == 0 {
        None
    } else if s[0] == 0u8 {
        Some((Seq::<(Seq<u8>, SpecValue)>::empty(), s.drop_first()))
    } else {
        let tag = s[0];
        match parse_key(s.drop_first()) {
            None => None,
            Some((k, s2)) => if s2.len() < s.len() {
                match parse_value(tag, s2) {
                    None => None,
                    Some((v, s3)) => if s3.len() < s.len() {
                        match parse_entries(s3) {
                            None => None,
                            Some((es, s4)) => Some((seq![(k, v)] + es, s4)),
                        }
                    } else {
                        None
                    },
                }
            } else {
                None
            },
        }
    }
}

// ---------- round trip ----------

/// The fields an array's items serialize as, from index `i` on.
pub open spec fn arr_entries(vs: Seq<SpecValue>, i: int) -> Seq<(Seq<u8>, SpecValue)> {
    Seq::new(
        if i <= vs.len() {
            (vs.len() - i) as nat
        } else {
            0
        },
        |j: int| (dec_digits((i + j) as nat), if 0 <= i + j < vs.len() {
            vs[i + j]
        } else {
            SpecValue::Null
        }),
    )
}

proof fn lemma_parse_key_of_ser(k: Seq<u8>, rest: Seq<u8>)
    requires
        wf_key(k),
    ensures
        parse_key(k + seq![0u8] + rest) == Some((k, rest)),
    decreases k.len(),
{
    let s = k + seq![0u8] + rest;
    if k.len() == 0 {
        assert(s[0] == 0u8);
        assert(s.drop_first() =~= rest);
        assert((k + seq![0u8] + rest).drop_first() =~= rest);
    } else {
        assert(s[0] == k[0]);
        assert(s[0] != 0u8);
        assert(s.drop_first() =~= k.drop_first() + seq![0u8] + rest);
        assert(wf_key(k.drop_first()));
        lemma_parse_key_of_ser(k.drop_first(), rest);
        assert(seq![s[0]] + k.drop_first() =~= k);
    }
}

proof fn lemma_tag_nonzero(v: SpecValue)
    ensures
        tag_of(v) != 0u8,
{
}

proof fn lemma_parse_value_of_ser(v: SpecValue, rest: Seq<u8>)
    requires
        wf_value(v),
    ensures
        parse_value(tag_of(v), ser_value(v) + rest) == Some((v, rest)),
    decreases v, 0int, 0int,
{
    let s = ser_value(v) + rest;
    match v {
        SpecValue::Double(b) => {
            lemma_auto_spec_u64_to_from_le_bytes();
            assert(s.take(8) =~= spec_u64_to_le_bytes(b));
            assert(s.skip(8) =~= rest);
        },
        SpecValue::Int32(i) => {
            lemma_auto_spec_u32_to_from_le_bytes();
            assert(s.take(4) =~= spec_u32_to_le_bytes(u32_of_i32(i)));
            assert(s.skip(4) =~= rest);
            lemma_i32_round_trip(i);
        },
        SpecValue::Int64(i) => {
            lemma_auto_spec_u64_to_from_le_bytes();
            assert(s.take(8) =~= spec_u64_to_le_bytes(u64_of_i64(i)));
            assert(s.skip(8) =~= rest);
            lemma_i64_round_trip(i);
        },
        SpecValue::DateTime(t) => {
            lemma_auto_spec_u64_to_from_le_bytes();
            assert(s.take(8) =~= spec_u64_to_le_bytes(u64_of_i64(t)));
            assert(s.skip(8) =~= rest);
            lemma_i64_round_trip(t);
        },
        SpecValue::Text(b) => {
            lemma_auto_spec_u32_to_from_le_bytes();
            let pre = spec_u32_to_le_bytes(text_size(b.len()));
            assert(pre.len() == 4);
            assert(s =~= pre + (b + seq![0u8] + rest));
            assert(s.take(4) =~= pre);
            let n = spec_u32_from_le_bytes(s.take(4)) as int;
            assert(n == text_size(b.len()) as int);
            assert(text_size(b.len()) as int == b.len() + 1);
            assert(s.len() == 4 + b.len() + 1 + rest.len());
            assert(s[4 + n - 1] == (b + seq![0u8] + rest)[b.len() as int]);
            assert(s[4 + n - 1] == 0u8);
            assert(s.subrange(4, 4 + n - 1) =~= b);
            assert(s.skip(4 + n) =~= rest);
        },
        SpecValue::Bool(b) => {
            assert(s[0] == (if b { 1u8 } else { 0u8 }));
            assert(s.drop_first() =~= rest);
        },
        SpecValue::Null => {
            assert(s =~= rest);
        },
        SpecValue::Id(b) => {
            assert(s.take(12) =~= b);
            assert(s.skip(12) =~= rest);
        },
        SpecValue::Doc(es) => {
            lemma_auto_spec_u32_to_from_le_bytes();
            let body = ser_entries(es, 0);
            assert(s.len() >= 4);
            assert(s.skip(4) =~= body + seq![0u8] + rest);
            lemma_parse_entries_of_ser(es, 0, rest);
            assert(es.skip(0) =~= es);
        },
        SpecValue::Array(vs) => {
            lemma_auto_spec_u32_to_from_le_bytes();
            let body = ser_items(vs, 0);
            assert(s.len() >= 4);
            assert(s.skip(4) =~= body + seq![0u8] + rest);
            lemma_parse_items_of_ser(vs, 0, rest);
            let es = arr_entries(vs, 0);
            assert(es.len() == vs.len());
            let got = Seq::new(
                es.len(),
                |i: int|
                    if 0 <= i < es.len() {
                        es[i].1
                    } else {
                        SpecValue::Null
                    },
            );
            assert(got =~= vs);
        },
    }
}

proof fn lemma_parse_entries_of_ser(es: Seq<(Seq<u8>, SpecValue)>, i: int, rest: Seq<u8>)
    requires
        wf_doc(es),
        0 <= i <= es.len(),
    ensures
        parse_entries(ser_entries(es, i) + seq![0u8] + rest) == Some((es.skip(i), rest)),
    decreases es, es.len() - i, 0int,
{
    let s = ser_entries(es, i) + seq![0u8] + rest;
    if i == es.len() {
        assert(ser_entries(es, i) =~= Seq::<u8>::empty());
        assert(s =~= seq![0u8] + rest);
        assert(s[0] == 0u8);
        assert(s.drop_first() =~= rest);
        assert(es.skip(i) =~= Seq::<(Seq<u8>, SpecValue)>::empty());
    } else {
        let k = es[i].0;
        let v = es[i].1;
        lemma_wf_doc_entry(es, i);
        let tail1 = ser_value(v) + ser_entries(es, i + 1) + seq![0u8] + rest;
        assert(s =~= seq![tag_of(v)] + (k + seq![0u8] + tail1));
        lemma_tag_nonzero(v);
        assert(s[0] == tag_of(v));
        assert(s.drop_first() =~= k + seq![0u8] + tail1);
        lemma_parse_key_of_ser(k, tail1);
        assert(tail1 =~= ser_value(v) + (ser_entries(es, i + 1) + seq![0u8] + rest));
        lemma_parse_value_of_ser(v, ser_entries(es, i + 1) + seq![0u8] + rest);
        lemma_parse_entries_of_ser(es, i + 1, rest);
        assert(tail1.len() < s.len());
        assert((ser_entries(es, i + 1) + seq![0u8] + rest).len() < s.len());
        assert(seq![(k, v)] + es.skip(i + 1) =~= es.skip(i));
    }
}

#[verifier::rlimit(100)]
#[verifier::spinoff_prover]
proof fn lemma_parse_items_of_ser(vs: Seq<SpecValue>, i: int, rest: Seq<u8>)
    requires
        wf_value(SpecValue::Array(vs)),
        0 <= i <= vs.len(),
    ensures
        parse_entries(ser_items(vs, i) + seq![0u8] + rest) == Some((arr_entries(vs, i), rest)),
    decreases vs, vs.len() - i, 0int,
{
    let s = ser_items(vs, i) + seq![0u8] + rest;
    if i == vs.len() {
        assert(ser_items(vs, i) =~= Seq::<u8>::empty());
        assert(s =~= seq![0u8] + rest);
        assert(s[0] == 0u8);
        assert(s.drop_first() =~= rest);
        assert(arr_entries(vs, i) =~= Seq::<(Seq<u8>, SpecValue)>::empty());
    } else {
        let k = dec_digits(i as nat);
        let v = vs[i];
        lemma_wf_items_entry(vs, i);
        lemma_dec_digits_wf(i as nat);
        let tail1 = ser_value(v) + ser_items(vs, i + 1) + seq![0u8] + rest;
        assert(s =~= seq![tag_of(v)] + (k + seq![0u8] + tail1));
        lemma_tag_nonzero(v);
        assert(s[0] == tag_of(v));
        assert(s[0] != 0u8);
        assert(k.len() >= 1);
        assert(s.drop_first() =~= k + seq![0u8] + tail1);
        lemma_parse_key_of_ser(k, tail1);
        assert(tail1 =~= ser_value(v) + (ser_items(vs, i + 1) + seq![0u8] + rest));
        lemma_parse_value_of_ser(v, ser_items(vs, i + 1) + seq![0u8] + rest);
        lemma_parse_items_of_ser(vs, i + 1, rest);
        assert(tail1.len() < s.len());
        assert((ser_items(vs, i + 1) + seq![0u8] + rest).len() < s.len());
        assert(seq![(k, v)] + arr_entries(vs, i + 1) =~= arr_entries(vs, i));
    }
}

/// Round trip: parsing a serialized document gives the document back.
pub proof fn lemma_doc_round_trip(es: Seq<(Seq<u8>, SpecValue)>)
    requires
        wf_doc(es),
    ensures
        parse_doc(ser_doc(es)) == Some(es),
{
    lemma_auto_spec_u32_to_from_le_bytes();
    let body = ser_entries(es, 0);
    let s = ser_doc(es);
    assert(s.len() >= 4);
    assert(s.skip(4) =~= body + seq![0u8] + Seq::<u8>::empty());
    lemma_parse_entries_of_ser(es, 0, Seq::<u8>::empty());
    assert(es.skip(0) =~= es);
}

/// Parse a whole document; the input must be exactly one document.
pub open spec fn parse_doc(s: Seq<u8>) -> Option<Seq<(Seq<u8>, SpecValue)>> {
    if s.len() >= 4 {
        match parse_entries(s.skip(4)) {
            Some((es, rest)) => if rest.len() == 0 {
                Some(es)
            } else {
                None
            },
            None => None,
        }
    } else {
        None
    }
}

// ---------- executable encoder ----------

fn push_all(out: &mut Vec<u8>, b: &Vec<u8>)
    ensures
        final(out)@ == old(out)@ + b@,
{
    let mut i: usize = 0;
    while i < b.len()
        invariant
            i <= b.len(),
            out@ == old(out)@ + b@.take(i as int),
        decreases b.len() - i,
    {
        out.push(b[i]);
        assert(old(out)@ + b@.take(i as int) + seq![b@[i as int]] =~= old(out)@ + b@.take(
            i as int + 1,
        ));
        i = i + 1;
    }
    assert(b@.take(b.len() as int) =~= b@);
}

pub(crate) fn u64_from_i64(i: i64) -> (r: u64)
    ensures
        r == u64_of_i64(i),
{
    if i >= 0 {
        i as u64
    } else {
        let w: i128 = i as i128 + 0x1_0000_0000_0000_0000i128;
        w as u64
    }
}

fn u32_from_i32(i: i32) -> (r: u32)
    ensures
        r == u32_of_i32(i),
{
    if i >= 0 {
        i as u32
    } else {
        let w: i64 = i as i64 + 0x1_0000_0000i64;
        w as u32
    }
}

fn i32_from_u32(u: u32) -> (r: i32)
    ensures
        r == i32_of_u32(u),
{
    if u < 0x8000_0000 {
        u as i32
    } else {
        let w: i64 = u as i64 - 0x1_0000_0000i64;
        w as i32
    }
}

pub(crate) fn i64_from_u64(u: u64) -> (r: i64)
    ensures
        r == i64_of_u64(u),
{
    if u < 0x8000_0000_0000_0000 {
        u as i64
    } else {
        let w: i128 = u as i128 - 0x1_0000_0000_0000_0000i128;
        w as i64
    }
}

fn size_u32(n: usize, extra: u32) -> (r: u32)
    ensures
        r as int == ((n + extra) as int) % 0x1_0000_0000,
{
    (((n as u128) + (extra as u128)) % 0x1_0000_0000) as u32
}

fn push_dec(out: &mut Vec<u8>, n: u64)
    ensures
        final(out)@ == old(out)@ + dec_digits(n as nat),
    decreases n,
{
    if n < 10 {
        out.push(48 + (n as u8));
        assert(old(out)@ + dec_digits(n as nat) =~= old(out)@.push((48 + n) as u8));
    } else {
        push_dec(out, n / 10);
        out.push(48 + ((n % 10) as u8));
        assert(old(out)@ + dec_digits(n as nat) =~= old(out)@ + dec_digits((n as nat) / 10).push(
            (48 + (n as nat) % 10) as u8,
        ));
    }
}

fn tag_byte(v: &Value) -> (t: u8)
    ensures
        t == tag_of(v.deep_view()),
{
    match v {
        Value::Double(_) => TAG_DOUBLE,
        Value::Int32(_) => TAG_INT32,
        Value::Int64(_) => TAG_INT64,
        Value::DateTime(_) => TAG_DATETIME,
        Value::Text(_) => TAG_TEXT,
        Value::Bool(_) => TAG_BOOL,
        Value::Null => TAG_NULL,
        Value::Id(_) => TAG_ID,
        Value::Doc(_) => TAG_DOC,
        Value::Array(_) => TAG_ARRAY,
    }
}

fn encode_value(v: &Value, out: &mut Vec<u8>)
    requires
        wf_value(v.deep_view()),
    ensures
        final(out)@ == old(out)@ + ser_value(v.deep_view()),
    decreases v, 0int, 0int,
{
    match v {
        Value::Double(b) => {
            let mut bs = u64_to_le_bytes(*b);
            out.append(&mut bs);
        },
        Value::Int32(i) => {
            let mut bs = u32_to_le_bytes(u32_from_i32(*i));
            out.append(&mut bs);
        },
        Value::Int64(i) => {
            let mut bs = u64_to_le_bytes(u64_from_i64(*i));
            out.append(&mut bs);
        },
        Value::DateTime(t) => {
            let mut bs = u64_to_le_bytes(u64_from_i64(*t));
            out.append(&mut bs);
        },
        Value::Text(b) => {
            let n = size_u32(b.len(), 1);
            assert(n == text_size(b@.len()));
            let mut bs = u32_to_le_bytes(n);
            out.append(&mut bs);
            push_all(out, b);
            out.push(0u8);
            assert(out@ =~= old(out)@ + ser_value(v.deep_view()));
        },
        Value::Bool(b) => {
            out.push(if *b {
                1u8
            } else {
                0u8
            });
            assert(out@ =~= old(out)@ + ser_value(v.deep_view()));
        },
        Value::Null => {
            assert(out@ =~= old(out)@ + ser_value(v.deep_view()));
        },
        Value::Id(b) => {
            push_all(out, b);
        },
        Value::Doc(es) => {
            proof {
                crate::model::lemma_doc_view(*es);
            }
            let mut body: Vec<u8> = Vec::new();
            encode_entries(es, 0, &mut body);
            let sz = size_u32(body.len(), 5);
            assert(sz == doc_size(body@.len()));
            let mut bs = u32_to_le_bytes(sz);
            out.append(&mut bs);
            out.append(&mut body);
            out.push(0u8);
            assert(out@ =~= old(out)@ + ser_value(v.deep_view()));
        },
        Value::Array(vs) => {
            proof {
                crate::model::lemma_array_view(*vs);
            }
            let mut body: Vec<u8> = Vec::new();
            encode_items(vs, 0, &mut body);
            let sz = size_u32(body.len(), 5);
            assert(sz == doc_size(body@.len()));
            let mut bs = u32_to_le_bytes(sz);
            out.append(&mut bs);
            out.append(&mut body);
            out.push(0u8);
            assert(out@ =~= old(out)@ + ser_value(v.deep_view()));
        },
    }
}

fn encode_entries(es: &Vec<Entry>, i: usize, out: &mut Vec<u8>)
    requires
        wf_doc(es.deep_view()),
        i <= es.len(),
    ensures
        final(out)@ == old(out)@ + ser_entries(es.deep_view(), i as int),
    decreases es, es.len() - i, 1int,
{
    if i < es.len() {
        let dv = Ghost(es.deep_view());
        assert(dv@[i as int] == es[i as int].deep_view());
        proof {
            lemma_wf_doc_entry(dv@, i as int);
        }
        out.push(tag_byte(&es[i].value));
        push_all(out, &es[i].key);
        out.push(0u8);
        encode_value(&es[i].value, out);
        encode_entries(es, i + 1, out);
        assert(out@ =~= old(out)@ + ser_entries(dv@, i as int));
    }
}

fn encode_items(vs: &Vec<Value>, i: usize, out: &mut Vec<u8>)
    requires
        wf_value(SpecValue::Array(vs.deep_view())),
        i <= vs.len(),
    ensures
        final(out)@ == old(out)@ + ser_items(vs.deep_view(), i as int),
    decreases vs, vs.len() - i, 1int,
{
    if i < vs.len() {
        let dv = Ghost(vs.deep_view());
        assert(dv@[i as int] == vs[i as int].deep_view());
        proof {
            lemma_wf_items_entry(dv@, i as int);
        }
        out.push(tag_byte(&vs[i]));
        push_dec(out, i as u64);
        out.push(0u8);
        encode_value(&vs[i], out);
        encode_items(vs, i + 1, out);
        assert(out@ =~= old(out)@ + ser_items(dv@, i as int));
    }
}

/// Serialize a document to its wire bytes.
pub fn encode_doc(d: &Document) -> (r: Vec<u8>)
    requires
        wf_doc(d.deep_view()),
    ensures
        r@ == ser_doc(d.deep_view()),
{
    let mut body: Vec<u8> = Vec::new();
    encode_entries(d, 0, &mut body);
    let sz = size_u32(body.len(), 5);
    assert(sz == doc_size(body@.len()));
    let mut out = u32_to_le_bytes(sz);
    let ghost pre = out@;
    out.append(&mut body);
    out.push(0u8);
    assert(out@ =~= ser_doc(d.deep_view()));
    out
}

// ---------- executable parser ----------

fn copy_range(bytes: &Vec<u8>, a: usize, b: usize) -> (r: Vec<u8>)
    requires
        a <= b <= bytes@.len(),
    ensures
        r@ == bytes@.subrange(a as int, b as int),
{
    slice_to_vec(slice_subrange(bytes.as_slice(), a, b))
}

fn parse_key_at(bytes: &Vec<u8>, pos: usize) -> (r: Option<(Vec<u8>, usize)>)
    requires
        pos <= bytes@.len(),
    ensures
        match r {
            None => parse_key(bytes@.skip(pos as int)) is None,
            Some((k, p2)) => {
                &&& pos < p2 <= bytes@.len()
                &&& parse_key(bytes@.skip(pos as int)) == Some((k@, bytes@.skip(p2 as int)))
            },
        },
    decreases bytes@.len() - pos,
{
    let ghost s = bytes@.skip(pos as int);
    if pos == bytes.len() {
        None
    } else if bytes[pos] == 0 {
        assert(s[0] == 0u8);
        assert(s.drop_first() =~= bytes@.skip(pos as int + 1));
        Some((Vec::new(), pos + 1))
    } else {
        assert(s[0] == bytes@[pos as int]);
        assert(s.drop_first() =~= bytes@.skip(pos as int + 1));
        match parse_key_at(bytes, pos + 1) {
            None => None,
            Some((mut k, p2)) => {
                k.insert(0, bytes[pos]);
                assert(k@ =~= seq![s[0]] + k@.drop_first());
                Some((k, p2))
            },
        }
    }
}

fn parse_value_at(bytes: &Vec<u8>, tag: u8, pos: usize) -> (r: Option<(Value, usize)>)
    requires
        pos <= bytes@.len(),
    ensures
        match r {
            None => parse_value(tag, bytes@.skip(pos as int)) is None,
            Some((v, p2)) => {
                &&& pos <= p2 <= bytes@.len()
                &&& parse_value(tag, bytes@.skip(pos as int)) == Some(
                    (v.deep_view(), bytes@.skip(p2 as int)),
                )
            },
        },
    decreases bytes@.len() - pos, 0int,
{
    let ghost s = bytes@.skip(pos as int);
    let remain = bytes.len() - pos;
    if tag == TAG_INT64 {
        if remain >= 8 {
            let u = u64_from_le_bytes(slice_subrange(bytes.as_slice(), pos, pos + 8));
            assert(bytes@.subrange(pos as int, pos as int + 8) =~= s.take(8));
            let i = i64_from_u64(u);
            assert(s.skip(8) =~= bytes@.skip(pos as int + 8));
            Some((Value::Int64(i), pos + 8))
        } else {
            None
        }
    } else if tag == TAG_DATETIME {
        if remain >= 8 {
            let u = u64_from_le_bytes(slice_subrange(bytes.as_slice(), pos, pos + 8));
            assert(bytes@.subrange(pos as int, pos as int + 8) =~= s.take(8));
            let t = i64_from_u64(u);
            assert(s.skip(8) =~= bytes@.skip(pos as int + 8));
            Some((Value::DateTime(t), pos + 8))
        } else {
            None
        }
    } else if tag == TAG_DOUBLE {
        if remain >= 8 {
            let u = u64_from_le_bytes(slice_subrange(bytes.as_slice(), pos, pos + 8));
            assert(bytes@.subrange(pos as int, pos as int + 8) =~= s.take(8));
            assert(s.skip(8) =~= bytes@.skip(pos as int + 8));
            Some((Value::Double(u), pos + 8))
        } else {
            None
        }
    } else if tag == TAG_INT32 {
        if remain >= 4 {
            let u = u32_from_le_bytes(slice_subrange(bytes.as_slice(), pos, pos + 4));
            assert(bytes@.subrange(pos as int, pos as int + 4) =~= s.take(4));
            let i = i32_from_u32(u);
            assert(s.skip(4) =~= bytes@.skip(pos as int + 4));
            Some((Value::Int32(i), pos + 4))
        } else {
            None
        }
    } else if tag == TAG_TEXT {
        if remain >= 4 {
            let nw = u32_from_le_bytes(slice_subrange(bytes.as_slice(), pos, pos + 4));
            assert(bytes@.subrange(pos as int, pos as int + 4) =~= s.take(4));
            let n = nw as usize;
            if 1 <= n && n <= remain - 4 && bytes[pos + 4 + n - 1] == 0 {
                let txt = copy_range(bytes, pos + 4, pos + 4 + n - 1);
                assert(txt@ =~= s.subrange(4, 4 + n - 1));
                assert(s.skip(4 + n as int) =~= bytes@.skip((pos + 4 + n) as int));
                assert(s[4 + n - 1] == 0u8);
                Some((Value::Text(txt), pos + 4 + n))
            } else {
                None
            }
        } else {
            None
        }
    } else if tag == TAG_BOOL {
        if remain >= 1 && (bytes[pos] == 0 || bytes[pos] == 1) {
            assert(s[0] == bytes@[pos as int]);
            assert(s.drop_first() =~= bytes@.skip(pos as int + 1));
            Some((Value::Bool(bytes[pos] == 1), pos + 1))
        } else {
            None
        }
    } else if tag == TAG_NULL {
        Some((Value::Null, pos))
    } else if tag == TAG_ID {
        if remain >= 12 {
            let b = copy_range(bytes, pos, pos + 12);
            assert(b@ =~= s.take(12));
            assert(s.skip(12) =~= bytes@.skip(pos as int + 12));
            Some((Value::Id(b), pos + 12))
        } else {
            None
        }
    } else if tag == TAG_DOC {
        if remain >= 4 {
            assert(s.skip(4) =~= bytes@.skip(pos as int + 4));
            match parse_entries_at(bytes, pos + 4) {
                None => None,
                Some((es, p2)) => {
                    proof {
                        crate::model::lemma_doc_view(es);
                    }
                    Some((Value::Doc(es), p2))
                },
            }
        } else {
            None
        }
    } else if tag == TAG_ARRAY {
        if remain >= 4 {
            assert(s.skip(4) =~= bytes@.skip(pos as int + 4));
            match parse_entries_at(bytes, pos + 4) {
                None => None,
                Some((es, p2)) => {
                    let ghost esdv = es.deep_view();
                    let mut vs: Vec<Value> = Vec::new();
                    let mut rest = es;
                    assert(rest.deep_view() =~= esdv.skip(0));
                    while rest.len() > 0
                        invariant
                            vs@.len() + rest@.len() == esdv.len(),
                            rest.deep_view() =~= esdv.skip(vs@.len() as int),
                            forall|j: int|
                                0 <= j < vs@.len() ==> (#[trigger] vs@[j].deep_view())
                                    == esdv[j].1,
                        decreases rest@.len(),
                    {
                        let ghost k = vs@.len() as int;
                        let ghost pre = rest@;
                        let ghost prevs = vs@;
                        let e = rest.remove(0);
                        vs.push(e.value);
                        proof {
                            assert(pre[0].deep_view() == esdv.skip(k)[0]);
                            assert(esdv.skip(k)[0] == esdv[k]);
                            assert(e.deep_view() == esdv[k]);
                            assert forall|j: int| 0 <= j < rest@.len() implies rest.deep_view()[j]
                                == esdv.skip(k + 1)[j] by {
                                assert(rest@[j] == pre[j + 1]);
                                assert(pre[j + 1].deep_view() == esdv.skip(k)[j + 1]);
                                assert(esdv.skip(k)[j + 1] == esdv[k + 1 + j]);
                            }
                            assert(rest.deep_view() =~= esdv.skip(k + 1));
                            assert forall|j: int| 0 <= j < vs@.len() implies (
                            #[trigger] vs@[j].deep_view()) == esdv[j].1 by {
                                if j < k {
                                    assert(vs@[j] == prevs[j]);
                                } else {
                                    assert(vs@[j] == e.value);
                                }
                            }
                        }
                    }
                    proof {
                        crate::model::lemma_array_view(vs);
                        let want = Seq::new(
                            esdv.len(),
                            |i: int|
                                if 0 <= i < esdv.len() {
                                    esdv[i].1
                                } else {
                                    SpecValue::Null
                                },
                        );
                        assert forall|j: int| 0 <= j < esdv.len() implies vs.deep_view()[j]
                            == want[j] by {
                            assert(vs.deep_view()[j] == vs@[j].deep_view());
                        }
                        assert(vs.deep_view() =~= want);
                    }
                                        Some((Value::Array(vs), p2))
                },
            }
        } else {
            None
        }
    } else {
        None
    }
}

fn parse_entries_at(bytes: &Vec<u8>, pos: usize) -> (r: Option<(Vec<Entry>, usize)>)
    requires
        pos <= bytes@.len(),
    ensures
        match r {
            None => parse_entries(bytes@.skip(pos as int)) is None,
            Some((es, p2)) => {
                &&& pos < p2 <= bytes@.len()
                &&& parse_entries(bytes@.skip(pos as int)) == Some(
                    (es.deep_view(), bytes@.skip(p2 as int)),
                )
            },
        },
    decreases bytes@.len() - pos, 1int,
{
    let ghost s = bytes@.skip(pos as int);
    if pos == bytes.len() {
        None
    } else if bytes[pos] == 0 {
        assert(s[0] == 0u8);
        assert(s.drop_first() =~= bytes@.skip(pos as int + 1));
        let es: Vec<Entry> = Vec::new();
        assert(es.deep_view() =~= Seq::<(Seq<u8>, SpecValue)>::empty());
        Some((es, pos + 1))
    } else {
        let tag = bytes[pos];
        assert(s[0] == tag && s[0] != 0u8);
        assert(s.drop_first() =~= bytes@.skip(pos as int + 1));
        match parse_key_at(bytes, pos + 1) {
            None => None,
            Some((k, p2)) => {
                match parse_value_at(bytes, tag, p2) {
                    None => None,
                    Some((v, p3)) => {
                        match parse_entries_at(bytes, p3) {
                            None => None,
                            Some((mut es, p4)) => {
                                let ghost tail = es.deep_view();
                                es.insert(0, Entry { key: k, value: v });
                                assert(es.deep_view() =~= seq![(k@, v.deep_view())] + tail);
                                Some((es, p4))
                            },
                        }
                    },
                }
            },
        }
    }
}

/// Parse wire bytes back into a document; the input must be exactly one document.
pub fn decode_doc(bytes: &Vec<u8>) -> (r: Option<Document>)
    ensures
        match r {
            None => parse_doc(bytes@) is None,
            Some(d) => parse_doc(bytes@) == Some(d.deep_view()),
        },
{
    if bytes.len() >= 4 {
        assert(bytes@.skip(4) =~= bytes@.skip(4int));
        match parse_entries_at(bytes, 4) {
            None => None,
            Some((es, p)) => {
                if p == bytes.len() {
                    assert(bytes@.skip(p as int).len() == 0);
                    Some(es)
                } else {
                    assert(bytes@.skip(p as int).len() != 0);
                    None
                }
            },
        }
    } else {
        None
    }
}

// ---------- parsed values are representable ----------

proof fn lemma_parse_key_wf(s: Seq<u8>)
    requires
        parse_key(s) is Some,
    ensures
        wf_key(parse_key(s).unwrap().0),
    decreases s.len(),
{
    if s.len() == 0 {
    } else if s[0] == 0u8 {
    } else {
        lemma_parse_key_wf(s.drop_first());
        let k = parse_key(s).unwrap().0;
        let k2 = parse_key(s.drop_first()).unwrap().0;
        assert forall|i: int| 0 <= i < k.len() implies k[i] != 0u8 by {
            if i > 0 {
                assert(k[i] == k2[i - 1]);
            }
        }
    }
}

proof fn lemma_parse_value_wf(tag: u8, s: Seq<u8>)
    requires
        parse_value(tag, s) is Some,
    ensures
        wf_value(parse_value(tag, s).unwrap().0),
    decreases s.len(), 0int,
{
    if tag == TAG_DOC || tag == TAG_ARRAY {
        lemma_parse_entries_wf(s.skip(4));
        if tag == TAG_ARRAY {
            let es = parse_entries(s.skip(4)).unwrap().0;
            let vs = parse_value(tag, s).unwrap().0->Array_0;
            assert forall|i: int| 0 <= i < vs.len() implies wf_value(#[trigger] vs[i]) by {
                assert(vs[i] == es[i].1);
                lemma_wf_doc_entry(es, i);
            }
            lemma_wf_items_pointwise(vs, 0);
        }
    }
}

proof fn lemma_parse_entries_wf(s: Seq<u8>)
    requires
        parse_entries(s) is Some,
    ensures
        wf_doc(parse_entries(s).unwrap().0),
    decreases s.len(), 1int,
{
    if s.len() == 0 {
    } else if s[0] == 0u8 {
        assert(parse_entries(s).unwrap().0 =~= Seq::<(Seq<u8>, SpecValue)>::empty());
    } else {
        let tag = s[0];
        let (k, s2) = parse_key(s.drop_first()).unwrap();
        lemma_parse_key_wf(s.drop_first());
        let (v, s3) = parse_value(tag, s2).unwrap();
        lemma_parse_value_wf(tag, s2);
        let es = parse_entries(s3).unwrap().0;
        lemma_parse_entries_wf(s3);
        let whole = parse_entries(s).unwrap().0;
        assert(wf_doc(es));
        assert(whole == seq![(k, v)] + es);
        crate::model::lemma_wf_doc_cons(k, v, es);
    }
}

/// Whatever the parser accepts, the encoder can represent.
pub proof fn lemma_parse_doc_wf(bytes: Seq<u8>)
    requires
        parse_doc(bytes) is Some,
    ensures
        wf_doc(parse_doc(bytes).unwrap()),
{
    lemma_parse_entries_wf(bytes.skip(4));
}

} // verus!
