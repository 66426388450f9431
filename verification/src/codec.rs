//! The hex layer of the wire format, and the two codec entry points:
//! `bson_to_hex` serializes a document to a hex wire string, `hex_to_bson`
//! parses a hex wire string back into a document.

use vstd::prelude::*;
use crate::model::{Document, SpecValue, wf_doc};
use crate::wire::{decode_doc, encode_doc, parse_doc, ser_doc, lemma_doc_round_trip};

verus! {

/// The lowercase hex digit of a value below 16.
pub open spec fn hex_char_of(n: u8) -> char {
    if n < 10 {
        (48 + n) as char
    } else {
        (87 + n) as char
    }
}

/// The hex string of a byte sequence: two digits per byte, in order.
pub open spec fn hex_str_of(bs: Seq<u8>) -> Seq<char> {
    Seq::new(
        bs.len() * 2,
        |i: int|
            if i % 2 == 0 {
                hex_char_of(bs[i / 2] / 16)
            } else {
                hex_char_of(bs[i / 2] % 16)
            },
    )
}

pub open spec fn is_hex_digit(c: char) -> bool {
    ('0' <= c && c <= '9') || ('a' <= c && c <= 'f') || ('A' <= c && c <= 'F')
}

/// The value of one hex digit.
pub open spec fn hex_val(c: char) -> int {
    if '0' <= c && c <= '9' {
        c as int - 48
    } else if 'a' <= c && c <= 'f' {
        c as int - 87
    } else {
        c as int - 55
    }
}

/// The bytes a hex string denotes, if it is one.
pub open spec fn hex_bytes(s: Seq<char>) -> Option<Seq<u8>> {
    if s.len() % 2 == 0 && (forall|i: int| 0 <= i < s.len() ==> is_hex_digit(#[trigger] s[i])) {
        Some(Seq::new(s.len() / 2, |i: int| (16 * hex_val(s[2 * i]) + hex_val(s[2 * i + 1])) as u8))
    } else {
        None
    }
}

/// What a wire string decodes to, if anything.
pub open spec fn decode_wire(s: Seq<char>) -> Option<Seq<(Seq<u8>, SpecValue)>> {
    match hex_bytes(s) {
        Some(bs) => parse_doc(bs),
        None => None,
    }
}

/// The wire string of a document.
pub open spec fn encode_wire(es: Seq<(Seq<u8>, SpecValue)>) -> Seq<char> {
    hex_str_of(ser_doc(es))
}

/// Relies on hex::encode: each byte becomes two lowercase hex digits, in order.
#[verifier::external_body]
fn hex_encode_bytes(b: &Vec<u8>) -> (r: String)
    ensures
        r@ == hex_str_of(b@),
{
    hex::encode(b.as_slice())
}

/// Relies on hex::decode: it succeeds exactly on even-length strings of hex
/// digits (either case), pairing digits into bytes in order.
#[verifier::external_body]
fn hex_decode_str(s: &str) -> (r: Option<Vec<u8>>)
    ensures
        r is Some <==> (s@.len() % 2 == 0 && (forall|i: int|
            0 <= i < s@.len() ==> is_hex_digit(#[trigger] s@[i]))),
        r is Some ==> r.unwrap()@.len() * 2 == s@.len(),
        r is Some ==> forall|i: int|
            0 <= i < r.unwrap()@.len() ==> (#[trigger] r.unwrap()@[i]) as int == 16 * hex_val(
                s@[2 * i],
            ) + hex_val(s@[2 * i + 1]),
{
    match hex::decode(s) {
        Ok(v) => Some(v),
        Err(_) => None,
    }
}

/// Serialize a document to its hex wire string.
pub fn bson_to_hex(document: &Document) -> (r: String)
    requires
        wf_doc(document.deep_view()),
    ensures
        r@ == encode_wire(document.deep_view()),
{
    let bytes = encode_doc(document);
    hex_encode_bytes(&bytes)
}

/// Parse a hex wire string into a document; malformed hex and malformed
/// document bytes are both decode failures.
pub fn hex_to_bson(s: &str) -> (r: Option<Document>)
    ensures
        match r {
            None => decode_wire(s@) is None,
            Some(d) => decode_wire(s@) == Some(d.deep_view()),
        },
{
    match hex_decode_str(s) {
        None => None,
        Some(bytes) => {
            proof {
                let hb = hex_bytes(s@);
                assert(hb is Some);
                assert(bytes@ =~= hb.unwrap());
            }
            decode_doc(&bytes)
        },
    }
}

/// Two hex digits denote the byte they were made from.
proof fn lemma_hex_byte_round_trip(n: u8)
    ensures
        is_hex_digit(hex_char_of(n / 16)),
        is_hex_digit(hex_char_of(n % 16)),
        16 * hex_val(hex_char_of(n / 16)) + hex_val(hex_char_of(n % 16)) == n,
{
}

/// Hex encoding round-trips on bytes.
proof fn lemma_hex_round_trip(bs: Seq<u8>)
    ensures
        hex_bytes(hex_str_of(bs)) == Some(bs),
{
    let s = hex_str_of(bs);
    assert forall|i: int| 0 <= i < s.len() implies is_hex_digit(#[trigger] s[i]) by {
        lemma_hex_byte_round_trip(bs[i / 2]);
    }
    let got = hex_bytes(s).unwrap();
    assert forall|i: int| 0 <= i < got.len() implies got[i] == bs[i] by {
        lemma_hex_byte_round_trip(bs[i]);
        assert(s[2 * i] == hex_char_of(bs[i] / 16));
        assert(s[2 * i + 1] == hex_char_of(bs[i] % 16));
    }
    assert(got =~= bs);
}

/// Round trip: decoding an encoded document gives the document back.
pub proof fn lemma_wire_round_trip(es: Seq<(Seq<u8>, SpecValue)>)
    requires
        wf_doc(es),
    ensures
        decode_wire(encode_wire(es)) == Some(es),
{
    lemma_hex_round_trip(ser_doc(es));
    lemma_doc_round_trip(es);
}

} // verus!
