//! Wire codec for the signaling protocol.
//!
//! Each message travels as one JSON object discriminated by a `type` field.
//! Outbound messages are encoded in the canonical compact form: no extra
//! whitespace, fields in declaration order, strings escaped with `\"`,
//! `\\`, `\b`, `\t`, `\n`, `\f`, `\r` and `\u00XX` (lowercase hex) for the
//! remaining control bytes. Inbound messages are accepted as standard JSON:
//! insignificant whitespace, any field order, the full escape set with
//! either hex case and surrogate pairs, and unknown fields of any value
//! shape ignored, down to a nesting limit. Parsing inverts encoding. The
//! codec works on the UTF-8 bytes of the message text.

use vstd::prelude::*;

use crate::signal::{RequestModel, ResponseModel, SignalRequest, SignalResponse, Test, TestModel};

verus! {

use vstd::string::StringSliceAdditionalSpecFns;
use vstd::utf8::{decode_utf8, encode_utf8, is_ascii_chars, valid_utf8};

/// The lowercase hex digit of a value below 16.
pub open spec fn hex_digit(v: u8) -> u8
    recommends
        v < 16,
{
    if v < 10 {
        (0x30 + v) as u8
    } else {
        (0x57 + v) as u8
    }
}

/// How one byte of string content appears inside a JSON string.
pub open spec fn escaped_byte(b: u8) -> Seq<u8> {
    if b == 0x22 {
        seq![0x5cu8, 0x22u8]
    } else if b == 0x5c {
        seq![0x5cu8, 0x5cu8]
    } else if b == 0x08 {
        seq![0x5cu8, 0x62u8]
    } else if b == 0x09 {
        seq![0x5cu8, 0x74u8]
    } else if b == 0x0a {
        seq![0x5cu8, 0x6eu8]
    } else if b == 0x0c {
        seq![0x5cu8, 0x66u8]
    } else if b == 0x0d {
        seq![0x5cu8, 0x72u8]
    } else if b < 0x20 {
        seq![0x5cu8, 0x75u8, 0x30u8, 0x30u8, hex_digit(b / 16), hex_digit(b % 16)]
    } else {
        seq![b]
    }
}

/// String content escaped for transport inside a JSON string.
pub open spec fn escaped(s: Seq<u8>) -> Seq<u8>
    decreases s.len(),
{
    if s.len() == 0 {
        Seq::empty()
    } else {
        escaped_byte(s[0]) + escaped(s.skip(1))
    }
}

/// Escaping distributes over extension by one byte.
pub proof fn lemma_escaped_push(s: Seq<u8>, b: u8)
    ensures
        escaped(s.push(b)) =~= escaped(s) + escaped_byte(b),
    decreases s.len(),
{
    if s.len() == 0 {
        assert(s.push(b)[0] == b);
        assert(s.push(b).skip(1) =~= Seq::<u8>::empty());
        assert(escaped(Seq::<u8>::empty()) =~= Seq::<u8>::empty());
        assert(escaped(s) =~= Seq::<u8>::empty());
        assert(escaped(s.push(b)) =~= escaped_byte(b) + escaped(s.push(b).skip(1)));
        assert(escaped(s.push(b)) =~= escaped(s) + escaped_byte(b));
    } else {
        assert(s.push(b)[0] == s[0]);
        assert(s.push(b).skip(1) =~= s.skip(1).push(b));
        lemma_escaped_push(s.skip(1), b);
        assert(escaped(s.push(b)) =~= escaped_byte(s[0]) + escaped(s.skip(1).push(b)));
        assert(escaped(s) =~= escaped_byte(s[0]) + escaped(s.skip(1)));
        assert(escaped_byte(s[0]) + (escaped(s.skip(1)) + escaped_byte(b)) =~= (escaped_byte(s[0])
            + escaped(s.skip(1))) + escaped_byte(b));
    }
}

/// Append a byte slice to a buffer.
pub fn append_bytes(out: &mut Vec<u8>, src: &[u8])
    ensures
        final(out)@ =~= old(out)@ + src@,
{
    let n: usize = src.len();
    let mut i: usize = 0;
    while i < n
        invariant
            i <= n,
            n == src@.len(),
            out@ =~= old(out)@ + src@.take(i as int),
        decreases n - i,
    {
        out.push(src[i]);
        proof {
            assert(src@.take(i + 1) =~= src@.take(i as int).push(src@[i as int]));
        }
        i = i + 1;
    }
    proof {
        assert(src@.take(n as int) =~= src@);
    }
}

/// Append the bytes of a text literal to a buffer.
pub fn append_lit(out: &mut Vec<u8>, lit: &str)
    ensures
        final(out)@ =~= old(out)@ + lit.spec_bytes(),
{
    append_bytes(out, lit.as_bytes());
}

/// Append escaped string content to a buffer.
pub fn escape_into(out: &mut Vec<u8>, src: &[u8])
    ensures
        final(out)@ =~= old(out)@ + escaped(src@),
{
    let n: usize = src.len();
    let mut i: usize = 0;
    while i < n
        invariant
            i <= n,
            n == src@.len(),
            out@ =~= old(out)@ + escaped(src@.take(i as int)),
        decreases n - i,
    {
        let b: u8 = src[i];
        if b == 0x22 {
            out.push(0x5c);
            out.push(0x22);
        } else if b == 0x5c {
            out.push(0x5c);
            out.push(0x5c);
        } else if b == 0x08 {
            out.push(0x5c);
            out.push(0x62);
        } else if b == 0x09 {
            out.push(0x5c);
            out.push(0x74);
        } else if b == 0x0a {
            out.push(0x5c);
            out.push(0x6e);
        } else if b == 0x0c {
            out.push(0x5c);
            out.push(0x66);
        } else if b == 0x0d {
            out.push(0x5c);
            out.push(0x72);
        } else if b < 0x20 {
            out.push(0x5c);
            out.push(0x75);
            out.push(0x30);
            out.push(0x30);
            let hi: u8 = b / 16;
            let lo: u8 = b % 16;
            out.push(if hi < 10 { 0x30 + hi } else { 0x57 + hi });
            out.push(if lo < 10 { 0x30 + lo } else { 0x57 + lo });
        } else {
            out.push(b);
        }
        proof {
            assert(out@ =~= old(out)@ + escaped(src@.take(i as int)) + escaped_byte(src@[i as int]));
            assert(src@.take(i + 1) =~= src@.take(i as int).push(src@[i as int]));
            lemma_escaped_push(src@.take(i as int), src@[i as int]);
            assert(out@ =~= old(out)@ + escaped(src@.take(i + 1)));
        }
        i = i + 1;
    }
    proof {
        assert(src@.take(n as int) =~= src@);
    }
}

/// Nesting limit for values of fields the protocol does not know, matching
/// common JSON parsers' recursion limit.
pub const JSON_DEPTH_LIMIT: u32 = 128;

/// The escape letters `"` `\` `/` `b` `t` `n` `f` `r` admitted after a
/// backslash.
pub open spec fn short_escape(e: u8) -> bool {
    e == 0x22 || e == 0x5c || e == 0x2f || e == 0x62 || e == 0x74 || e == 0x6e || e == 0x66 || e
        == 0x72
}

/// The content byte a short escape stands for.
pub open spec fn short_unescaped(e: u8) -> u8 {
    if e == 0x22 {
        0x22
    } else if e == 0x5c {
        0x5c
    } else if e == 0x2f {
        0x2f
    } else if e == 0x62 {
        0x08
    } else if e == 0x74 {
        0x09
    } else if e == 0x6e {
        0x0a
    } else if e == 0x66 {
        0x0c
    } else {
        0x0d
    }
}

/// A hex digit, either case.
pub open spec fn is_hex(c: u8) -> bool {
    (0x30 <= c && c <= 0x39) || (0x61 <= c && c <= 0x66) || (0x41 <= c && c <= 0x46)
}

/// Value of a hex digit.
pub open spec fn hex_val(c: u8) -> u8
    recommends
        is_hex(c),
{
    if c <= 0x39 {
        (c - 0x30) as u8
    } else if c >= 0x61 {
        (c - 0x57) as u8
    } else {
        (c - 0x37) as u8
    }
}

/// Value of four hex digits.
pub open spec fn hex4(a: u8, b: u8, c: u8, d: u8) -> int {
    4096 * hex_val(a) + 256 * hex_val(b) + 16 * hex_val(c) + hex_val(d)
}

/// The UTF-8 bytes of one scalar value.
pub open spec fn utf8_of_scalar(v: u32) -> Seq<u8> {
    if v < 0x80 {
        seq![v as u8]
    } else if v < 0x800 {
        seq![(0xc0 + v / 0x40) as u8, (0x80 + v % 0x40) as u8]
    } else if v < 0x10000 {
        seq![(0xe0 + v / 0x1000) as u8, (0x80 + (v / 0x40) % 0x40) as u8, (0x80 + v % 0x40) as u8]
    } else {
        seq![
            (0xf0 + v / 0x40000) as u8,
            (0x80 + (v / 0x1000) % 0x40) as u8,
            (0x80 + (v / 0x40) % 0x40) as u8,
            (0x80 + v % 0x40) as u8,
        ]
    }
}

/// Reads JSON string content up to and including the closing quote, with
/// the standard escapes: the short ones, `\uXXXX` in either hex case, and
/// surrogate pairs for characters beyond the basic plane. Yields the
/// decoded content bytes and the byte count consumed.
pub open spec fn str_body(s: Seq<u8>) -> Option<(Seq<u8>, nat)>
    decreases s.len(),
{
    if s.len() == 0 {
        None
    } else if s[0] == 0x22 {
        Some((Seq::empty(), 1))
    } else if s[0] == 0x5c {
        if s.len() < 2 {
            None
        } else if short_escape(s[1]) {
            match str_body(s.skip(2)) {
                Some(r) => Some((seq![short_unescaped(s[1])] + r.0, (r.1 + 2) as nat)),
                None => None,
            }
        } else if s[1] == 0x75 {
            if s.len() < 6 {
                None
            } else if is_hex(s[2]) && is_hex(s[3]) && is_hex(s[4]) && is_hex(s[5]) {
                let v1 = hex4(s[2], s[3], s[4], s[5]);
                if 0xd800 <= v1 && v1 <= 0xdbff {
                    if s.len() >= 12 && s[6] == 0x5c && s[7] == 0x75 && is_hex(s[8]) && is_hex(
                        s[9],
                    ) && is_hex(s[10]) && is_hex(s[11]) {
                        let v2 = hex4(s[8], s[9], s[10], s[11]);
                        if 0xdc00 <= v2 && v2 <= 0xdfff {
                            let scalar = 0x10000 + (v1 - 0xd800) * 0x400 + (v2 - 0xdc00);
                            match str_body(s.skip(12)) {
                                Some(r) => Some(
                                    (utf8_of_scalar(scalar as u32) + r.0, (r.1 + 12) as nat),
                                ),
                                None => None,
                            }
                        } else {
                            None
                        }
                    } else {
                        None
                    }
                } else if 0xdc00 <= v1 && v1 <= 0xdfff {
                    None
                } else {
                    match str_body(s.skip(6)) {
                        Some(r) => Some((utf8_of_scalar(v1 as u32) + r.0, (r.1 + 6) as nat)),
                        None => None,
                    }
                }
            } else {
                None
            }
        } else {
            None
        }
    } else if s[0] < 0x20 {
        None
    } else {
        match str_body(s.skip(1)) {
            Some(r) => Some((seq![s[0]] + r.0, (r.1 + 1) as nat)),
            None => None,
        }
    }
}

/// A whole JSON string, opening quote included.
pub open spec fn p_string(s: Seq<u8>) -> Option<(Seq<u8>, nat)> {
    if s.len() > 0 && s[0] == 0x22 {
        match str_body(s.skip(1)) {
            Some(r) => Some((r.0, (r.1 + 1) as nat)),
            None => None,
        }
    } else {
        None
    }
}

/// An insignificant-whitespace byte.
pub open spec fn is_ws(b: u8) -> bool {
    b == 0x20 || b == 0x09 || b == 0x0a || b == 0x0d
}

/// Count of leading whitespace bytes.
pub open spec fn sp(s: Seq<u8>) -> nat
    decreases s.len(),
{
    if s.len() > 0 && is_ws(s[0]) {
        (1 + sp(s.skip(1))) as nat
    } else {
        0
    }
}

/// The whitespace count never passes the length.
pub proof fn lemma_sp_le(s: Seq<u8>)
    ensures
        sp(s) <= s.len(),
    decreases s.len(),
{
    if s.len() > 0 && is_ws(s[0]) {
        lemma_sp_le(s.skip(1));
    }
}

/// An ASCII digit.
pub open spec fn is_digit(b: u8) -> bool {
    0x30 <= b && b <= 0x39
}

/// Count of leading digits.
pub open spec fn digits(s: Seq<u8>) -> nat
    decreases s.len(),
{
    if s.len() > 0 && is_digit(s[0]) {
        (1 + digits(s.skip(1))) as nat
    } else {
        0
    }
}

/// A JSON number: optional minus, an integer part without leading zeros,
/// an optional fraction, an optional exponent. Yields the bytes consumed.
pub open spec fn p_number(s: Seq<u8>) -> Option<nat> {
    let neg: nat = if s.len() > 0 && s[0] == 0x2d {
        1nat
    } else {
        0nat
    };
    let s1 = s.skip(neg as int);
    if s1.len() == 0 || !is_digit(s1[0]) {
        None
    } else {
        let ilen: nat = if s1[0] == 0x30 {
            1nat
        } else {
            digits(s1)
        };
        let j1: nat = (neg + ilen) as nat;
        let s2 = s.skip(j1 as int);
        if s2.len() > 0 && s2[0] == 0x2e && digits(s2.skip(1)) == 0 {
            None
        } else {
            let j2: nat = if s2.len() > 0 && s2[0] == 0x2e {
                (j1 + 1 + digits(s2.skip(1))) as nat
            } else {
                j1
            };
            let s3 = s.skip(j2 as int);
            if s3.len() > 0 && (s3[0] == 0x65 || s3[0] == 0x45) {
                let sign: nat = if s3.len() > 1 && (s3[1] == 0x2b || s3[1] == 0x2d) {
                    1nat
                } else {
                    0nat
                };
                if digits(s3.skip(1 + sign as int)) == 0 {
                    None
                } else {
                    Some((j2 + 1 + sign + digits(s3.skip(1 + sign as int))) as nat)
                }
            } else {
                Some(j2)
            }
        }
    }
}

/// Any JSON value, down to `depth` further levels of nesting: a string, a
/// number, a literal, an object or an array. Yields the bytes consumed.
pub open spec fn p_value(s: Seq<u8>, depth: nat) -> Option<nat>
    decreases depth, s.len(), 0int,
{
    if s.len() == 0 {
        None
    } else if s[0] == 0x22 {
        match p_string(s) {
            Some(r) => Some(r.1),
            None => None,
        }
    } else if s[0] == 0x7b {
        if depth == 0 {
            None
        } else {
            match p_object_body(s.skip(1), (depth - 1) as nat) {
                Some(r) => Some((r.1 + 1) as nat),
                None => None,
            }
        }
    } else if s[0] == 0x5b {
        if depth == 0 {
            None
        } else {
            match p_array_body(s.skip(1), (depth - 1) as nat) {
                Some(n) => Some((n + 1) as nat),
                None => None,
            }
        }
    } else if s[0] == 0x74 {
        if s.len() >= 4 && s[1] == 0x72 && s[2] == 0x75 && s[3] == 0x65 {
            Some(4)
        } else {
            None
        }
    } else if s[0] == 0x66 {
        if s.len() >= 5 && s[1] == 0x61 && s[2] == 0x6c && s[3] == 0x73 && s[4] == 0x65 {
            Some(5)
        } else {
            None
        }
    } else if s[0] == 0x6e {
        if s.len() >= 4 && s[1] == 0x75 && s[2] == 0x6c && s[3] == 0x6c {
            Some(4)
        } else {
            None
        }
    } else if s[0] == 0x2d || is_digit(s[0]) {
        p_number(s)
    } else {
        None
    }
}

/// The members of an object, from the first key to the closing brace.
/// Yields each key with its value's content where the value is a string,
/// and the bytes consumed, closing brace included.
pub open spec fn p_members(s: Seq<u8>, depth: nat) -> Option<
    (Seq<(Seq<u8>, Option<Seq<u8>>)>, nat),
>
    decreases depth, s.len(), 1int,
    via p_members_decreases
{
    let w = sp(s);
    match p_string(s.skip(w as int)) {
        None => None,
        Some(kr) => {
            let i1: nat = (w + kr.1) as nat;
            let w2 = sp(s.skip(i1 as int));
            let i2: nat = (i1 + w2) as nat;
            if i2 < s.len() && s[i2 as int] == 0x3a {
                let i3: nat = (i2 + 1) as nat;
                let w3 = sp(s.skip(i3 as int));
                let i4: nat = (i3 + w3) as nat;
                let sv = s.skip(i4 as int);
                if sv.len() > 0 && sv[0] == 0x22 {
                    match p_string(sv) {
                        None => None,
                        Some(vr) => p_member_rest(s, depth, kr.0, Some(vr.0), (i4 + vr.1) as nat),
                    }
                } else {
                    match p_value(sv, depth) {
                        None => None,
                        Some(c) => p_member_rest(s, depth, kr.0, None, (i4 + c) as nat),
                    }
                }
            } else {
                None
            }
        },
    }
}

#[via_fn]
proof fn p_members_decreases(s: Seq<u8>, depth: nat) {
    lemma_sp_le(s);
    let w = sp(s);
    if let Some(kr) = p_string(s.skip(w as int)) {
        assert(kr.1 >= 1);
        let i1: nat = (w + kr.1) as nat;
        lemma_sp_le(s.skip(i1 as int));
        let w2 = sp(s.skip(i1 as int));
        let i2: nat = (i1 + w2) as nat;
        if i2 < s.len() && s[i2 as int] == 0x3a {
            let i3: nat = (i2 + 1) as nat;
            lemma_sp_le(s.skip(i3 as int));
            let w3 = sp(s.skip(i3 as int));
            let i4: nat = (i3 + w3) as nat;
            assert(s.skip(i4 as int).len() <= s.len());
        }
    }
}

/// After one member's value: either the closing brace, or a comma and the
/// remaining members.
pub open spec fn p_member_rest(
    s: Seq<u8>,
    depth: nat,
    k: Seq<u8>,
    v: Option<Seq<u8>>,
    i5: nat,
) -> Option<(Seq<(Seq<u8>, Option<Seq<u8>>)>, nat)>
    decreases depth, s.len(), 0int,
{
    let w4 = sp(s.skip(i5 as int));
    let i6: nat = (i5 + w4) as nat;
    if i6 < s.len() && s[i6 as int] == 0x7d {
        Some((seq![(k, v)], (i6 + 1) as nat))
    } else if i6 < s.len() && s[i6 as int] == 0x2c {
        match p_members(s.skip(i6 + 1int), depth) {
            None => None,
            Some(r) => Some((seq![(k, v)] + r.0, (i6 + 1 + r.1) as nat)),
        }
    } else {
        None
    }
}

/// An object body right after the opening brace: empty, or its members.
pub open spec fn p_object_body(s: Seq<u8>, depth: nat) -> Option<
    (Seq<(Seq<u8>, Option<Seq<u8>>)>, nat),
>
    decreases depth, s.len(), 2int,
{
    let w = sp(s);
    if w < s.len() && s[w as int] == 0x7d {
        Some((Seq::empty(), (w + 1) as nat))
    } else {
        p_members(s, depth)
    }
}

/// The elements of an array, from the first element to the closing bracket.
pub open spec fn p_elems(s: Seq<u8>, depth: nat) -> Option<nat>
    decreases depth, s.len(), 1int,
    via p_elems_decreases
{
    let w = sp(s);
    match p_value(s.skip(w as int), depth) {
        None => None,
        Some(c) => {
            let i1: nat = (w + c) as nat;
            let w2 = sp(s.skip(i1 as int));
            let i2: nat = (i1 + w2) as nat;
            if i2 < s.len() && s[i2 as int] == 0x5d {
                Some((i2 + 1) as nat)
            } else if i2 < s.len() && s[i2 as int] == 0x2c {
                match p_elems(s.skip(i2 + 1int), depth) {
                    None => None,
                    Some(n) => Some((i2 + 1 + n) as nat),
                }
            } else {
                None
            }
        },
    }
}

#[via_fn]
proof fn p_elems_decreases(s: Seq<u8>, depth: nat) {
    lemma_sp_le(s);
    assert(s.skip(sp(s) as int).len() <= s.len());
}

/// An array body right after the opening bracket: empty, or its elements.
pub open spec fn p_array_body(s: Seq<u8>, depth: nat) -> Option<nat>
    decreases depth, s.len(), 2int,
{
    let w = sp(s);
    if w < s.len() && s[w as int] == 0x5d {
        Some((w + 1) as nat)
    } else {
        p_elems(s, depth)
    }
}

/// How often a key occurs among an object's members.
pub open spec fn key_count(ps: Seq<(Seq<u8>, Option<Seq<u8>>)>, key: Seq<u8>) -> nat
    decreases ps.len(),
{
    if ps.len() == 0 {
        0
    } else {
        ((if ps[0].0 == key {
            1nat
        } else {
            0nat
        }) + key_count(ps.skip(1), key)) as nat
    }
}

/// The first member with the given key, if any.
pub open spec fn find_value(ps: Seq<(Seq<u8>, Option<Seq<u8>>)>, key: Seq<u8>) -> Option<
    Option<Seq<u8>>,
>
    decreases ps.len(),
{
    if ps.len() == 0 {
        None
    } else if ps[0].0 == key {
        Some(ps[0].1)
    } else {
        find_value(ps.skip(1), key)
    }
}

/// A required string field: present exactly once, with a string value.
pub open spec fn str_field(ps: Seq<(Seq<u8>, Option<Seq<u8>>)>, key: Seq<u8>) -> Option<Seq<u8>> {
    if key_count(ps, key) == 1 {
        match find_value(ps, key) {
            Some(Some(v)) => Some(v),
            _ => None,
        }
    } else {
        None
    }
}

/// One whole JSON object document: optional surrounding whitespace, one
/// object, nothing after it. Yields the members.
pub open spec fn parse_fields(b: Seq<u8>) -> Option<Seq<(Seq<u8>, Option<Seq<u8>>)>> {
    let w = sp(b);
    if w < b.len() && b[w as int] == 0x7b {
        match p_object_body(b.skip(w + 1int), JSON_DEPTH_LIMIT as nat) {
            Some(r) => {
                if w + 1 + r.1 + sp(b.skip(w + 1int + r.1)) == b.len() {
                    Some(r.0)
                } else {
                    None
                }
            },
            None => None,
        }
    } else {
        None
    }
}

/// The field whose decoded content selects the message, if it is valid
/// UTF-8.
pub open spec fn decoded_field(
    ps: Seq<(Seq<u8>, Option<Seq<u8>>)>,
    key: Seq<u8>,
) -> Option<Seq<char>> {
    match str_field(ps, key) {
        Some(c) => if valid_utf8(c) {
            Some(decode_utf8(c))
        } else {
            None
        },
        None => None,
    }
}

/// Parses one inbound message: any JSON object with a `type` field naming
/// the variant and the variant's field as a string, in any field order,
/// with unknown fields ignored.
pub open spec fn parse_response(b: Seq<u8>) -> Option<ResponseModel> {
    match parse_fields(b) {
        None => None,
        Some(pairs) => match str_field(pairs, "type".spec_bytes()) {
            None => None,
            Some(tag) => {
                if tag == "session".spec_bytes() {
                    match decoded_field(pairs, "id".spec_bytes()) {
                        Some(id) => Some(ResponseModel::Session { id }),
                        None => None,
                    }
                } else if tag == "offer".spec_bytes() {
                    match decoded_field(pairs, "sdp".spec_bytes()) {
                        Some(sdp) => Some(ResponseModel::Offer { sdp }),
                        None => None,
                    }
                } else if tag == "answer".spec_bytes() {
                    match decoded_field(pairs, "sdp".spec_bytes()) {
                        Some(sdp) => Some(ResponseModel::Answer { sdp }),
                        None => None,
                    }
                } else if tag == "ice_candidate".spec_bytes() {
                    match decoded_field(pairs, "ice_candidate".spec_bytes()) {
                        Some(ice_candidate) => Some(ResponseModel::IceCandidate { ice_candidate }),
                        None => None,
                    }
                } else {
                    None
                }
            },
        },
    }
}

/// Canonical wire form of an inbound message.
pub open spec fn enc_response(m: ResponseModel) -> Seq<u8> {
    match m {
        ResponseModel::Session { id } => "{\"type\":\"session\",\"id\":\"".spec_bytes() + escaped(
            encode_utf8(id),
        ) + "\"}".spec_bytes(),
        ResponseModel::Offer { sdp } => "{\"type\":\"offer\",\"sdp\":\"".spec_bytes() + escaped(
            encode_utf8(sdp),
        ) + "\"}".spec_bytes(),
        ResponseModel::Answer { sdp } => "{\"type\":\"answer\",\"sdp\":\"".spec_bytes() + escaped(
            encode_utf8(sdp),
        ) + "\"}".spec_bytes(),
        ResponseModel::IceCandidate { ice_candidate } =>
            "{\"type\":\"ice_candidate\",\"ice_candidate\":\"".spec_bytes() + escaped(
            encode_utf8(ice_candidate),
        ) + "\"}".spec_bytes(),
    }
}

/// Canonical wire form of an outbound message.
pub open spec fn enc_request(m: RequestModel) -> Seq<u8> {
    match m {
        RequestModel::Offer { sdp } => "{\"type\":\"offer\",\"sdp\":\"".spec_bytes() + escaped(
            encode_utf8(sdp),
        ) + "\"}".spec_bytes(),
        RequestModel::Answer { id, sdp } => "{\"type\":\"answer\",\"id\":\"".spec_bytes() + escaped(
            encode_utf8(id),
        ) + "\",\"sdp\":\"".spec_bytes() + escaped(encode_utf8(sdp)) + "\"}".spec_bytes(),
        RequestModel::CallerIceCandidate { id, ice_candidate } =>
            "{\"type\":\"caller_ice_candidate\",\"id\":\"".spec_bytes() + escaped(encode_utf8(id))
            + "\",\"ice_candidate\":\"".spec_bytes() + escaped(encode_utf8(ice_candidate))
            + "\"}".spec_bytes(),
        RequestModel::GetOffer { id } => "{\"type\":\"get_offer\",\"id\":\"".spec_bytes() + escaped(
            encode_utf8(id),
        ) + "\"}".spec_bytes(),
        RequestModel::PeerIceCandidate { id, ice_candidate } =>
            "{\"type\":\"peer_ice_candidate\",\"id\":\"".spec_bytes() + escaped(encode_utf8(id))
            + "\",\"ice_candidate\":\"".spec_bytes() + escaped(encode_utf8(ice_candidate))
            + "\"}".spec_bytes(),
    }
}

/// Canonical wire form of a bare session description.
pub open spec fn enc_test(m: TestModel) -> Seq<u8> {
    "{\"sdp\":\"".spec_bytes() + escaped(encode_utf8(m.sdp)) + "\",\"type\":\"".spec_bytes()
        + escaped(encode_utf8(m.kind)) + "\"}".spec_bytes()
}

/// Relies on String::from_utf8: it accepts exactly the valid UTF-8 byte
/// sequences and keeps the bytes as the string's encoding.
#[verifier::external_body]
fn bytes_to_string(v: Vec<u8>) -> (r: Option<String>)
    ensures
        r is Some <==> valid_utf8(v@),
        r matches Some(st) ==> encode_utf8(st@) == v@,
{
    String::from_utf8(v).ok()
}

/// Encodes one outbound signaling message to its wire bytes.
pub fn encode_signal_request(m: &SignalRequest) -> (r: Vec<u8>)
    ensures
        r@ =~= enc_request(m@),
{
    let mut out: Vec<u8> = Vec::new();
    match m {
        SignalRequest::Offer { sdp } => {
            append_lit(&mut out, "{\"type\":\"offer\",\"sdp\":\"");
            escape_into(&mut out, sdp.as_str().as_bytes());
            append_lit(&mut out, "\"}");
        },
        SignalRequest::Answer { id, sdp } => {
            append_lit(&mut out, "{\"type\":\"answer\",\"id\":\"");
            escape_into(&mut out, id.as_str().as_bytes());
            append_lit(&mut out, "\",\"sdp\":\"");
            escape_into(&mut out, sdp.as_str().as_bytes());
            append_lit(&mut out, "\"}");
        },
        SignalRequest::CallerIceCandidate { id, ice_candidate } => {
            append_lit(&mut out, "{\"type\":\"caller_ice_candidate\",\"id\":\"");
            escape_into(&mut out, id.as_str().as_bytes());
            append_lit(&mut out, "\",\"ice_candidate\":\"");
            escape_into(&mut out, ice_candidate.as_str().as_bytes());
            append_lit(&mut out, "\"}");
        },
        SignalRequest::GetOffer { id } => {
            append_lit(&mut out, "{\"type\":\"get_offer\",\"id\":\"");
            escape_into(&mut out, id.as_str().as_bytes());
            append_lit(&mut out, "\"}");
        },
        SignalRequest::PeerIceCandidate { id, ice_candidate } => {
            append_lit(&mut out, "{\"type\":\"peer_ice_candidate\",\"id\":\"");
            escape_into(&mut out, id.as_str().as_bytes());
            append_lit(&mut out, "\",\"ice_candidate\":\"");
            escape_into(&mut out, ice_candidate.as_str().as_bytes());
            append_lit(&mut out, "\"}");
        },
    }
    out
}

/// Encodes one inbound-form signaling message to its wire bytes.
pub fn encode_signal_response(m: &SignalResponse) -> (r: Vec<u8>)
    ensures
        r@ =~= enc_response(m@),
{
    let mut out: Vec<u8> = Vec::new();
    match m {
        SignalResponse::Session { id } => {
            append_lit(&mut out, "{\"type\":\"session\",\"id\":\"");
            escape_into(&mut out, id.as_str().as_bytes());
            append_lit(&mut out, "\"}");
        },
        SignalResponse::Offer { sdp } => {
            append_lit(&mut out, "{\"type\":\"offer\",\"sdp\":\"");
            escape_into(&mut out, sdp.as_str().as_bytes());
            append_lit(&mut out, "\"}");
        },
        SignalResponse::Answer { sdp } => {
            append_lit(&mut out, "{\"type\":\"answer\",\"sdp\":\"");
            escape_into(&mut out, sdp.as_str().as_bytes());
            append_lit(&mut out, "\"}");
        },
        SignalResponse::IceCandidate { ice_candidate } => {
            append_lit(&mut out, "{\"type\":\"ice_candidate\",\"ice_candidate\":\"");
            escape_into(&mut out, ice_candidate.as_str().as_bytes());
            append_lit(&mut out, "\"}");
        },
    }
    out
}

/// Encodes a bare session description, fields `sdp` then `type`.
pub fn encode_test(m: &Test) -> (r: Vec<u8>)
    ensures
        r@ =~= enc_test(m@),
{
    let mut out: Vec<u8> = Vec::new();
    append_lit(&mut out, "{\"sdp\":\"");
    escape_into(&mut out, m.sdp.as_str().as_bytes());
    append_lit(&mut out, "\",\"type\":\"");
    escape_into(&mut out, m.kind.as_str().as_bytes());
    append_lit(&mut out, "\"}");
    out
}


/// Index just past the leading whitespace at `from`.
fn skip_ws(s: &[u8], from: usize) -> (r: usize)
    requires
        from <= s@.len(),
    ensures
        from <= r <= s@.len(),
        (r - from) as nat == sp(s@.skip(from as int)),
{
    let n: usize = s.len();
    let mut i: usize = from;
    loop
        invariant
            from <= i <= n,
            n == s@.len(),
            sp(s@.skip(from as int)) == (i - from) as nat + sp(s@.skip(i as int)),
        decreases n - i,
    {
        proof {
            assert(s@.skip(i as int).len() == n - i);
            if i < n {
                assert(s@.skip(i as int)[0] == s@[i as int]);
            }
        }
        if i >= n {
            proof {
                assert(sp(s@.skip(i as int)) == 0);
            }
            return i;
        }
        let b: u8 = s[i];
        if b == 0x20 || b == 0x09 || b == 0x0a || b == 0x0d {
            proof {
                assert(s@.skip(i as int).skip(1) =~= s@.skip(i + 1));
                assert(sp(s@.skip(i as int)) == 1 + sp(s@.skip(i + 1)));
            }
            i = i + 1;
        } else {
            proof {
                assert(!is_ws(s@.skip(i as int)[0]));
                assert(sp(s@.skip(i as int)) == 0);
            }
            return i;
        }
    }
}

/// Index just past the digit run at `from`.
fn run_digits(s: &[u8], from: usize) -> (r: usize)
    requires
        from <= s@.len(),
    ensures
        from <= r <= s@.len(),
        (r - from) as nat == digits(s@.skip(from as int)),
{
    let n: usize = s.len();
    let mut i: usize = from;
    loop
        invariant
            from <= i <= n,
            n == s@.len(),
            digits(s@.skip(from as int)) == (i - from) as nat + digits(s@.skip(i as int)),
        decreases n - i,
    {
        proof {
            assert(s@.skip(i as int).len() == n - i);
            if i < n {
                assert(s@.skip(i as int)[0] == s@[i as int]);
            }
        }
        if i >= n {
            proof {
                assert(digits(s@.skip(i as int)) == 0);
            }
            return i;
        }
        let b: u8 = s[i];
        if 0x30 <= b && b <= 0x39 {
            proof {
                assert(s@.skip(i as int).skip(1) =~= s@.skip(i + 1));
                assert(digits(s@.skip(i as int)) == 1 + digits(s@.skip(i + 1)));
            }
            i = i + 1;
        } else {
            proof {
                assert(!is_digit(s@.skip(i as int)[0]));
                assert(digits(s@.skip(i as int)) == 0);
            }
            return i;
        }
    }
}

/// The value of a hex digit, in either case.
fn hex_val_of(b: u8) -> (r: Option<u8>)
    ensures
        (r is Some) == is_hex(b),
        r matches Some(v) ==> v == hex_val(b) && v < 16,
{
    if 0x30 <= b && b <= 0x39 {
        Some(b - 0x30)
    } else if 0x61 <= b && b <= 0x66 {
        Some(b - 0x57)
    } else if 0x41 <= b && b <= 0x46 {
        Some(b - 0x37)
    } else {
        None
    }
}

/// Appends the UTF-8 bytes of one scalar value.
fn push_scalar(out: &mut Vec<u8>, v: u32)
    requires
        v < 0x110000,
    ensures
        final(out)@ =~= old(out)@ + utf8_of_scalar(v),
{
    if v < 0x80 {
        out.push(v as u8);
    } else if v < 0x800 {
        out.push((0xc0 + v / 0x40) as u8);
        out.push((0x80 + v % 0x40) as u8);
    } else if v < 0x10000 {
        out.push((0xe0 + v / 0x1000) as u8);
        out.push((0x80 + (v / 0x40) % 0x40) as u8);
        out.push((0x80 + v % 0x40) as u8);
    } else {
        out.push((0xf0 + v / 0x40000) as u8);
        out.push((0x80 + (v / 0x1000) % 0x40) as u8);
        out.push((0x80 + (v / 0x40) % 0x40) as u8);
        out.push((0x80 + v % 0x40) as u8);
    }
}

/// Reads escaped string content from `s` starting at `from` (just past the
/// opening quote), up to and including the closing quote. Yields the
/// decoded content and the index just past the quote.
#[verifier::rlimit(100)]
#[verifier::spinoff_prover]
pub fn read_string_body(s: &[u8], from: usize) -> (r: Option<(Vec<u8>, usize)>)
    requires
        from <= s@.len(),
    ensures
        r matches Some(p) ==> {
            &&& from < p.1 <= s@.len()
            &&& str_body(s@.skip(from as int)) == Some((p.0@, (p.1 - from) as nat))
        },
        r is None ==> str_body(s@.skip(from as int)) is None,
{
    let n: usize = s.len();
    let mut i: usize = from;
    let mut out: Vec<u8> = Vec::new();
    loop
        invariant
            from <= i <= n,
            n == s@.len(),
            match str_body(s@.skip(i as int)) {
                Some(r2) => str_body(s@.skip(from as int)) == Some(
                    (out@ + r2.0, ((i - from) as nat + r2.1) as nat),
                ),
                None => str_body(s@.skip(from as int)) is None,
            },
        decreases n - i,
    {
        proof {
            assert(s@.skip(i as int).len() == n - i);
            if i < n {
                assert(s@.skip(i as int)[0] == s@[i as int]);
            }
        }
        if i >= n {
            return None;
        }
        let b: u8 = s[i];
        if b == 0x22 {
            proof {
                assert(str_body(s@.skip(i as int)) == Some((Seq::<u8>::empty(), 1nat)));
                assert(out@ + Seq::<u8>::empty() =~= out@);
            }
            return Some((out, i + 1));
        } else if b == 0x5c {
            if n - i < 2 {
                return None;
            }
            let e: u8 = s[i + 1];
            proof {
                assert(s@.skip(i as int)[1] == s@[i + 1]);
            }
            if e == 0x22 || e == 0x5c || e == 0x2f || e == 0x62 || e == 0x74 || e == 0x6e || e
                == 0x66 || e == 0x72 {
                let d: u8 = if e == 0x22 {
                    0x22
                } else if e == 0x5c {
                    0x5c
                } else if e == 0x2f {
                    0x2f
                } else if e == 0x62 {
                    0x08
                } else if e == 0x74 {
                    0x09
                } else if e == 0x6e {
                    0x0a
                } else if e == 0x66 {
                    0x0c
                } else {
                    0x0d
                };
                let ghost prev_out = out@;
                out.push(d);
                proof {
                    assert(d == short_unescaped(e));
                    assert(s@.skip(i as int).skip(2) =~= s@.skip(i + 2));
                    if let Some(r2) = str_body(s@.skip(i + 2)) {
                        assert(str_body(s@.skip(i as int)) == Some(
                            (seq![d] + r2.0, (r2.1 + 2) as nat),
                        ));
                        assert(prev_out + (seq![d] + r2.0) =~= out@ + r2.0);
                    }
                }
                i = i + 2;
            } else if e == 0x75 {
                if n - i < 6 {
                    return None;
                }
                proof {
                    assert(s@.skip(i as int)[2] == s@[i + 2]);
                    assert(s@.skip(i as int)[3] == s@[i + 3]);
                    assert(s@.skip(i as int)[4] == s@[i + 4]);
                    assert(s@.skip(i as int)[5] == s@[i + 5]);
                }
                let h1 = hex_val_of(s[i + 2]);
                let h2 = hex_val_of(s[i + 3]);
                let h3 = hex_val_of(s[i + 4]);
                let h4 = hex_val_of(s[i + 5]);
                if h1.is_none() || h2.is_none() || h3.is_none() || h4.is_none() {
                    return None;
                }
                let v1: u32 = 4096 * (h1.unwrap() as u32) + 256 * (h2.unwrap() as u32) + 16 * (
                h3.unwrap() as u32) + (h4.unwrap() as u32);
                proof {
                    assert(v1 == hex4(s@[i + 2], s@[i + 3], s@[i + 4], s@[i + 5]));
                }
                if 0xd800 <= v1 && v1 <= 0xdbff {
                    if n - i < 12 {
                        return None;
                    }
                    proof {
                        assert(s@.skip(i as int)[6] == s@[i + 6]);
                        assert(s@.skip(i as int)[7] == s@[i + 7]);
                        assert(s@.skip(i as int)[8] == s@[i + 8]);
                        assert(s@.skip(i as int)[9] == s@[i + 9]);
                        assert(s@.skip(i as int)[10] == s@[i + 10]);
                        assert(s@.skip(i as int)[11] == s@[i + 11]);
                    }
                    if s[i + 6] != 0x5c || s[i + 7] != 0x75 {
                        return None;
                    }
                    let g1 = hex_val_of(s[i + 8]);
                    let g2 = hex_val_of(s[i + 9]);
                    let g3 = hex_val_of(s[i + 10]);
                    let g4 = hex_val_of(s[i + 11]);
                    if g1.is_none() || g2.is_none() || g3.is_none() || g4.is_none() {
                        return None;
                    }
                    let v2: u32 = 4096 * (g1.unwrap() as u32) + 256 * (g2.unwrap() as u32) + 16 * (
                    g3.unwrap() as u32) + (g4.unwrap() as u32);
                    proof {
                        assert(v2 == hex4(s@[i + 8], s@[i + 9], s@[i + 10], s@[i + 11]));
                    }
                    if !(0xdc00 <= v2 && v2 <= 0xdfff) {
                        return None;
                    }
                    let scalar: u32 = 0x10000 + (v1 - 0xd800) * 0x400 + (v2 - 0xdc00);
                    let ghost prev_out = out@;
                    push_scalar(&mut out, scalar);
                    proof {
                        assert(s@.skip(i as int).skip(12) =~= s@.skip(i + 12));
                        if let Some(r2) = str_body(s@.skip(i + 12)) {
                            assert(str_body(s@.skip(i as int)) == Some(
                                (utf8_of_scalar(scalar) + r2.0, (r2.1 + 12) as nat),
                            ));
                            assert(prev_out + (utf8_of_scalar(scalar) + r2.0) =~= out@ + r2.0);
                        }
                    }
                    i = i + 12;
                } else if 0xdc00 <= v1 && v1 <= 0xdfff {
                    return None;
                } else {
                    let ghost prev_out = out@;
                    push_scalar(&mut out, v1);
                    proof {
                        assert(s@.skip(i as int).skip(6) =~= s@.skip(i + 6));
                        if let Some(r2) = str_body(s@.skip(i + 6)) {
                            assert(str_body(s@.skip(i as int)) == Some(
                                (utf8_of_scalar(v1) + r2.0, (r2.1 + 6) as nat),
                            ));
                            assert(prev_out + (utf8_of_scalar(v1) + r2.0) =~= out@ + r2.0);
                        }
                    }
                    i = i + 6;
                }
            } else {
                return None;
            }
        } else if b < 0x20 {
            return None;
        } else {
            let ghost prev_out = out@;
            out.push(b);
            proof {
                assert(s@.skip(i as int).skip(1) =~= s@.skip(i + 1));
                if let Some(r2) = str_body(s@.skip(i + 1)) {
                    assert(str_body(s@.skip(i as int)) == Some((seq![b] + r2.0, (r2.1 + 1) as nat)));
                    assert(prev_out + (seq![b] + r2.0) =~= out@ + r2.0);
                }
            }
            i = i + 1;
        }
    }
}

/// Skips one JSON number starting at `from`.
#[verifier::rlimit(100)]
#[verifier::spinoff_prover]
fn skip_number(s: &[u8], from: usize) -> (r: Option<usize>)
    requires
        from <= s@.len(),
    ensures
        (r is Some) == (p_number(s@.skip(from as int)) is Some),
        r matches Some(j) ==> from <= j <= s@.len() && p_number(s@.skip(from as int)) == Some(
            ((j - from) as nat),
        ),
{
    let n: usize = s.len();
    proof {
        assert(s@.skip(from as int).len() == n - from);
        if from < n {
            assert(s@.skip(from as int)[0] == s@[from as int]);
        }
    }
    let neg: usize = if from < n && s[from] == 0x2d {
        1
    } else {
        0
    };
    let i0: usize = from + neg;
    proof {
        assert(s@.skip(from as int).skip(neg as int) =~= s@.skip(i0 as int));
        if i0 < n {
            assert(s@.skip(i0 as int)[0] == s@[i0 as int]);
        }
        assert(s@.skip(i0 as int).len() == n - i0);
    }
    if i0 >= n {
        return None;
    }
    let first: u8 = s[i0];
    if !(0x30 <= first && first <= 0x39) {
        return None;
    }
    let j1: usize = if first == 0x30 {
        i0 + 1
    } else {
        run_digits(s, i0)
    };
    proof {
        assert(s@.skip(from as int).skip((j1 - from) as int) =~= s@.skip(j1 as int));
        if j1 < n {
            assert(s@.skip(j1 as int)[0] == s@[j1 as int]);
        }
        assert(s@.skip(j1 as int).len() == n - j1);
    }
    let j2: usize;
    if j1 < n && s[j1] == 0x2e {
        proof {
            assert(s@.skip(j1 as int).skip(1) =~= s@.skip(j1 + 1));
        }
        let f_end: usize = run_digits(s, j1 + 1);
        if f_end == j1 + 1 {
            return None;
        }
        j2 = f_end;
    } else {
        j2 = j1;
    }
    proof {
        assert(s@.skip(from as int).skip((j2 - from) as int) =~= s@.skip(j2 as int));
        if j2 < n {
            assert(s@.skip(j2 as int)[0] == s@[j2 as int]);
        }
        assert(s@.skip(j2 as int).len() == n - j2);
    }
    if j2 < n && (s[j2] == 0x65 || s[j2] == 0x45) {
        let sign: usize = if j2 + 1 < n && (s[j2 + 1] == 0x2b || s[j2 + 1] == 0x2d) {
            1
        } else {
            0
        };
        proof {
            if j2 + 1 < n {
                assert(s@.skip(j2 as int)[1] == s@[j2 + 1]);
            }
            assert(s@.skip(j2 as int).skip(1 + sign as int) =~= s@.skip(j2 + 1 + sign));
        }
        let e_end: usize = run_digits(s, j2 + 1 + sign);
        if e_end == j2 + 1 + sign {
            return None;
        }
        Some(e_end)
    } else {
        Some(j2)
    }
}


/// Skips one JSON value starting at `from`, down to `depth` further levels
/// of nesting.
fn skip_value(s: &[u8], from: usize, depth: u32) -> (r: Option<usize>)
    requires
        from <= s@.len(),
    ensures
        (r is Some) == (p_value(s@.skip(from as int), depth as nat) is Some),
        r matches Some(j) ==> from <= j <= s@.len() && p_value(s@.skip(from as int), depth as nat)
            == Some(((j - from) as nat)),
    decreases depth, s@.len() - from, 0int,
{
    let n: usize = s.len();
    proof {
        assert(s@.skip(from as int).len() == n - from);
        if from < n {
            assert(s@.skip(from as int)[0] == s@[from as int]);
        }
    }
    if from >= n {
        return None;
    }
    let b: u8 = s[from];
    if b == 0x22 {
        match read_string_body(s, from + 1) {
            Some(p) => {
                proof {
                    assert(s@.skip(from as int).skip(1) =~= s@.skip(from + 1));
                }
                Some(p.1)
            },
            None => {
                proof {
                    assert(s@.skip(from as int).skip(1) =~= s@.skip(from + 1));
                }
                None
            },
        }
    } else if b == 0x7b {
        if depth == 0 {
            return None;
        }
        proof {
            assert(s@.skip(from as int).skip(1) =~= s@.skip(from + 1));
        }
        let w: usize = skip_ws(s, from + 1);
        proof {
            assert(s@.skip(from + 1).len() == n - (from + 1));
            if w < n {
                assert(s@.skip(from + 1)[(w - (from + 1)) as int] == s@[w as int]);
            }
        }
        if w < n && s[w] == 0x7d {
            proof {
                assert(p_object_body(s@.skip(from + 1), (depth - 1) as nat) == Some(
                    (Seq::<(Seq<u8>, Option<Seq<u8>>)>::empty(), ((w - from) as nat)),
                ));
            }
            Some(w + 1)
        } else {
            proof {
                let sb = s@.skip(from + 1);
                let wsp = sp(sb);
                assert(!(wsp < sb.len() && sb[wsp as int] == 0x7d));
            }
            let mut scratch: Vec<(Vec<u8>, Option<Vec<u8>>)> = Vec::new();
            match parse_members(s, from + 1, depth - 1, &mut scratch) {
                Some(j) => Some(j),
                None => None,
            }
        }
    } else if b == 0x5b {
        if depth == 0 {
            return None;
        }
        proof {
            assert(s@.skip(from as int).skip(1) =~= s@.skip(from + 1));
        }
        let w: usize = skip_ws(s, from + 1);
        proof {
            assert(s@.skip(from + 1).len() == n - (from + 1));
            if w < n {
                assert(s@.skip(from + 1)[(w - (from + 1)) as int] == s@[w as int]);
            }
        }
        if w < n && s[w] == 0x5d {
            proof {
                assert(p_array_body(s@.skip(from + 1), (depth - 1) as nat) == Some(
                    ((w - from) as nat),
                ));
            }
            Some(w + 1)
        } else {
            proof {
                let sb = s@.skip(from + 1);
                let wsp = sp(sb);
                assert(!(wsp < sb.len() && sb[wsp as int] == 0x5d));
            }
            match skip_elems(s, from + 1, depth - 1) {
                Some(j) => Some(j),
                None => None,
            }
        }
    } else if b == 0x74 {
        proof {
            if from + 3 < n {
                assert(s@.skip(from as int)[1] == s@[from + 1]);
                assert(s@.skip(from as int)[2] == s@[from + 2]);
                assert(s@.skip(from as int)[3] == s@[from + 3]);
            }
        }
        if n - from >= 4 && s[from + 1] == 0x72 && s[from + 2] == 0x75 && s[from + 3] == 0x65 {
            Some(from + 4)
        } else {
            None
        }
    } else if b == 0x66 {
        proof {
            if from + 4 < n {
                assert(s@.skip(from as int)[1] == s@[from + 1]);
                assert(s@.skip(from as int)[2] == s@[from + 2]);
                assert(s@.skip(from as int)[3] == s@[from + 3]);
                assert(s@.skip(from as int)[4] == s@[from + 4]);
            }
        }
        if n - from >= 5 && s[from + 1] == 0x61 && s[from + 2] == 0x6c && s[from + 3] == 0x73 && s[
            from + 4] == 0x65 {
            Some(from + 5)
        } else {
            None
        }
    } else if b == 0x6e {
        proof {
            if from + 3 < n {
                assert(s@.skip(from as int)[1] == s@[from + 1]);
                assert(s@.skip(from as int)[2] == s@[from + 2]);
                assert(s@.skip(from as int)[3] == s@[from + 3]);
            }
        }
        if n - from >= 4 && s[from + 1] == 0x75 && s[from + 2] == 0x6c && s[from + 3] == 0x6c {
            Some(from + 4)
        } else {
            None
        }
    } else if b == 0x2d || (0x30 <= b && b <= 0x39) {
        skip_number(s, from)
    } else {
        None
    }
}

/// Skips the elements of an array, from the first element to the closing
/// bracket.
#[verifier::rlimit(100)]
#[verifier::spinoff_prover]
fn skip_elems(s: &[u8], start: usize, depth: u32) -> (r: Option<usize>)
    requires
        start <= s@.len(),
    ensures
        (r is Some) == (p_elems(s@.skip(start as int), depth as nat) is Some),
        r matches Some(j) ==> start <= j <= s@.len() && p_elems(s@.skip(start as int), depth as nat)
            == Some(((j - start) as nat)),
    decreases depth, s@.len() - start, 1int,
{
    let n: usize = s.len();
    let mut i: usize = start;
    loop
        invariant
            start <= i <= n,
            n == s@.len(),
            match p_elems(s@.skip(i as int), depth as nat) {
                Some(c) => p_elems(s@.skip(start as int), depth as nat) == Some(
                    (((i - start) as nat + c) as nat),
                ),
                None => p_elems(s@.skip(start as int), depth as nat) is None,
            },
        decreases n - i,
    {
        let w: usize = skip_ws(s, i);
        proof {
            assert(s@.skip(i as int).skip((w - i) as int) =~= s@.skip(w as int));
        }
        let jv: usize = match skip_value(s, w, depth) {
            Some(j) => j,
            None => {
                return None;
            },
        };
        let w2: usize = skip_ws(s, jv);
        proof {
            assert(s@.skip(i as int).skip((jv - i) as int) =~= s@.skip(jv as int));
            assert(s@.skip(i as int).len() == n - i);
            if w2 < n {
                assert(s@.skip(i as int)[(w2 - i) as int] == s@[w2 as int]);
            }
        }
        if w2 < n && s[w2] == 0x5d {
            return Some(w2 + 1);
        } else if w2 < n && s[w2] == 0x2c {
            proof {
                assert(s@.skip(i as int).skip((w2 + 1 - i) as int) =~= s@.skip(w2 + 1));
            }
            i = w2 + 1;
        } else {
            return None;
        }
    }
}

/// The members of an exec pair list, as the object model.
pub open spec fn pairs_view(v: Vec<(Vec<u8>, Option<Vec<u8>>)>) -> Seq<(Seq<u8>, Option<Seq<u8>>)> {
    Seq::new(
        v@.len(),
        |q: int|
            (
                v@[q].0@,
                match v@[q].1 {
                    Some(x) => Some(x@),
                    None => None,
                },
            ),
    )
}


/// One member of an object, read at position `i`: how `p_members` advances
/// over it, whichever separator follows.
#[verifier::rlimit(100)]
#[verifier::spinoff_prover]
proof fn lemma_members_step(
    sfull: Seq<u8>,
    i: int,
    w: int,
    jk: int,
    w2: int,
    w3: int,
    jv: int,
    w4: int,
    k: Seq<u8>,
    v: Option<Seq<u8>>,
    depth: nat,
)
    requires
        0 <= i <= w <= jk <= w2 < sfull.len(),
        w2 + 1 <= w3 <= jv <= w4 <= sfull.len(),
        (w - i) as nat == sp(sfull.skip(i)),
        p_string(sfull.skip(w)) == Some((k, ((jk - w) as nat))),
        (w2 - jk) as nat == sp(sfull.skip(jk)),
        sfull[w2] == 0x3a,
        (w3 - (w2 + 1)) as nat == sp(sfull.skip(w2 + 1)),
        match v {
            Some(c) => sfull.skip(w3).len() > 0 && sfull.skip(w3)[0] == 0x22 && p_string(
                sfull.skip(w3),
            ) == Some((c, ((jv - w3) as nat))),
            None => !(sfull.skip(w3).len() > 0 && sfull.skip(w3)[0] == 0x22) && p_value(
                sfull.skip(w3),
                depth,
            ) == Some(((jv - w3) as nat)),
        },
        (w4 - jv) as nat == sp(sfull.skip(jv)),
    ensures
        w4 < sfull.len() && sfull[w4] == 0x7d ==> p_members(sfull.skip(i), depth) == Some(
            (seq![(k, v)], ((w4 + 1 - i) as nat)),
        ),
        w4 < sfull.len() && sfull[w4] == 0x2c ==> p_members(sfull.skip(i), depth) == (
        match p_members(sfull.skip(w4 + 1), depth) {
            Some(pr) => Some((seq![(k, v)] + pr.0, ((w4 + 1 - i) as nat + pr.1) as nat)),
            None => None,
        }),
        !(w4 < sfull.len() && (sfull[w4] == 0x7d || sfull[w4] == 0x2c)) ==> p_members(
            sfull.skip(i),
            depth,
        ) is None,
{
    let si = sfull.skip(i);
    assert(si.len() == sfull.len() - i);
    assert(si.skip(w - i) =~= sfull.skip(w));
    assert(si.skip(jk - i) =~= sfull.skip(jk));
    assert(si[w2 - i] == sfull[w2]);
    assert(si.skip(w2 + 1 - i) =~= sfull.skip(w2 + 1));
    assert(si.skip(w3 - i) =~= sfull.skip(w3));
    assert(si.skip(jv - i) =~= sfull.skip(jv));
    if w4 < sfull.len() {
        assert(si[w4 - i] == sfull[w4]);
        assert(si.skip(w4 + 1 - i) =~= sfull.skip(w4 + 1));
    }
    assert(p_member_rest(si, depth, k, v, (jv - i) as nat) == (if w4 < sfull.len() && sfull[w4]
        == 0x7d {
        Some((seq![(k, v)], ((w4 + 1 - i) as nat)))
    } else if w4 < sfull.len() && sfull[w4] == 0x2c {
        match p_members(sfull.skip(w4 + 1), depth) {
            Some(pr) => Some((seq![(k, v)] + pr.0, ((w4 + 1 - i) as nat + pr.1) as nat)),
            None => None,
        }
    } else {
        None
    }));
}

/// Collects the members of an object, from the first key to the closing
/// brace, appending each to `pairs`.
/// Reads one member at `i` and appends it to `pairs`: yields the index
/// after its separator and whether that separator closed the object.
#[verifier::rlimit(100)]
#[verifier::spinoff_prover]
fn parse_one_member(
    s: &[u8],
    i: usize,
    depth: u32,
    pairs: &mut Vec<(Vec<u8>, Option<Vec<u8>>)>,
) -> (r: Option<(usize, bool)>)
    requires
        i <= s@.len(),
    ensures
        r is None ==> p_members(s@.skip(i as int), depth as nat) is None,
        r matches Some(p) ==> {
            &&& i < p.0 <= s@.len()
            &&& pairs_view(*final(pairs)).len() == pairs_view(*old(pairs)).len() + 1
            &&& pairs_view(*final(pairs)).drop_last() =~= pairs_view(*old(pairs))
            &&& (p.1 ==> p_members(s@.skip(i as int), depth as nat) == Some(
                (seq![pairs_view(*final(pairs)).last()], ((p.0 - i) as nat)),
            ))
            &&& (!p.1 ==> (match p_members(s@.skip(p.0 as int), depth as nat) {
                Some(pr) => p_members(s@.skip(i as int), depth as nat) == Some(
                    (
                        seq![pairs_view(*final(pairs)).last()] + pr.0,
                        ((p.0 - i) as nat + pr.1) as nat,
                    ),
                ),
                None => p_members(s@.skip(i as int), depth as nat) is None,
            }))
        },
    decreases depth, s@.len() - i, 0int,
{
    let n: usize = s.len();
    let ghost si = s@.skip(i as int);
    let w: usize = skip_ws(s, i);
    proof {
        assert(si.skip((w - i) as int) =~= s@.skip(w as int));
        assert(si.len() == n - i);
        if w < n {
            assert(s@.skip(w as int)[0] == s@[w as int]);
        }
        assert(s@.skip(w as int).len() == n - w);
    }
    if w >= n || s[w] != 0x22 {
        proof {
            assert(p_string(s@.skip(w as int)) is None);
        }
        return None;
    }
    proof {
        assert(s@.skip(w as int).skip(1) =~= s@.skip(w + 1));
    }
    let (kvec, jk) = match read_string_body(s, w + 1) {
        Some(p) => p,
        None => {
            proof {
                assert(p_string(s@.skip(w as int)) is None);
            }
            return None;
        },
    };
    proof {
        assert(p_string(s@.skip(w as int)) == Some((kvec@, ((jk - w) as nat))));
        assert(si.skip((jk - i) as int) =~= s@.skip(jk as int));
    }
    let w2: usize = skip_ws(s, jk);
    proof {
        if w2 < n {
            assert(si[(w2 - i) as int] == s@[w2 as int]);
        }
    }
    if w2 >= n || s[w2] != 0x3a {
        return None;
    }
    proof {
        assert(si.skip((w2 + 1 - i) as int) =~= s@.skip(w2 + 1));
    }
    let w3: usize = skip_ws(s, w2 + 1);
    proof {
        assert(si.skip((w3 - i) as int) =~= s@.skip(w3 as int));
        assert(s@.skip(w3 as int).len() == n - w3);
        if w3 < n {
            assert(s@.skip(w3 as int)[0] == s@[w3 as int]);
        }
    }
    let vopt: Option<Vec<u8>>;
    let jv: usize;
    if w3 < n && s[w3] == 0x22 {
        proof {
            assert(s@.skip(w3 as int).skip(1) =~= s@.skip(w3 + 1));
        }
        match read_string_body(s, w3 + 1) {
            Some(p) => {
                proof {
                    assert(p_string(s@.skip(w3 as int)) == Some((p.0@, ((p.1 - w3) as nat))));
                }
                vopt = Some(p.0);
                jv = p.1;
            },
            None => {
                proof {
                    assert(p_string(s@.skip(w3 as int)) is None);
                }
                return None;
            },
        }
    } else {
        match skip_value(s, w3, depth) {
            Some(j) => {
                vopt = None;
                jv = j;
            },
            None => {
                return None;
            },
        }
    }
    let ghost pm: (Seq<u8>, Option<Seq<u8>>) = (
        kvec@,
        match vopt {
            Some(ref x) => Some(x@),
            None => None,
        },
    );
    let w4: usize = skip_ws(s, jv);
    proof {
        lemma_members_step(
            s@,
            i as int,
            w as int,
            jk as int,
            w2 as int,
            w3 as int,
            jv as int,
            w4 as int,
            pm.0,
            pm.1,
            depth as nat,
        );
    }
    let ghost prev_pairs = pairs_view(*pairs);
    if w4 < n && s[w4] == 0x7d {
        pairs.push((kvec, vopt));
        proof {
            assert(pairs_view(*pairs) =~= prev_pairs.push(pm));
            assert(pairs_view(*pairs).last() == pm);
            assert(pairs_view(*pairs).drop_last() =~= prev_pairs);
        }
        Some((w4 + 1, true))
    } else if w4 < n && s[w4] == 0x2c {
        pairs.push((kvec, vopt));
        proof {
            assert(pairs_view(*pairs) =~= prev_pairs.push(pm));
            assert(pairs_view(*pairs).last() == pm);
            assert(pairs_view(*pairs).drop_last() =~= prev_pairs);
        }
        Some((w4 + 1, false))
    } else {
        None
    }
}

/// Collects the members of an object, from the first key to the closing
/// brace, appending each to `pairs`.
#[verifier::rlimit(100)]
#[verifier::spinoff_prover]
fn parse_members(
    s: &[u8],
    start: usize,
    depth: u32,
    pairs: &mut Vec<(Vec<u8>, Option<Vec<u8>>)>,
) -> (r: Option<usize>)
    requires
        start <= s@.len(),
    ensures
        (r is Some) == (p_members(s@.skip(start as int), depth as nat) is Some),
        r matches Some(j) ==> start <= j <= s@.len() && (p_members(
            s@.skip(start as int),
            depth as nat,
        ) matches Some(pr) && (j - start) as nat == pr.1 && pairs_view(*final(pairs)) =~= pairs_view(
            *old(pairs),
        ) + pr.0),
    decreases depth, s@.len() - start, 1int,
{
    let n: usize = s.len();
    let mut i: usize = start;
    let ghost orig = pairs_view(*pairs);
    let ghost mut acc: Seq<(Seq<u8>, Option<Seq<u8>>)> = Seq::empty();
    loop
        invariant
            start <= i <= n,
            n == s@.len(),
            pairs_view(*pairs) =~= orig + acc,
            orig == pairs_view(*old(pairs)),
            match p_members(s@.skip(i as int), depth as nat) {
                Some(pr) => p_members(s@.skip(start as int), depth as nat) matches Some(pr0)
                    && pr0.0 =~= acc + pr.0 && pr0.1 == (i - start) as nat + pr.1,
                None => p_members(s@.skip(start as int), depth as nat) is None,
            },
        decreases n - i,
    {
        let ghost prev = pairs_view(*pairs);
        match parse_one_member(s, i, depth, pairs) {
            None => {
                return None;
            },
            Some((j, done)) => {
                let ghost pm = pairs_view(*pairs).last();
                proof {
                    assert(pairs_view(*pairs).drop_last() =~= prev);
                    assert(pairs_view(*pairs) =~= prev.push(pm));
                    assert(prev.push(pm) =~= orig + acc.push(pm));
                    assert(acc + seq![pm] =~= acc.push(pm));
                }
                if done {
                    proof {
                        assert(p_members(s@.skip(i as int), depth as nat) == Some(
                            (seq![pm], ((j - i) as nat)),
                        ));
                    }
                    return Some(j);
                } else {
                    proof {
                        match p_members(s@.skip(j as int), depth as nat) {
                            Some(pr) => {
                                assert(acc + (seq![pm] + pr.0) =~= (acc + seq![pm]) + pr.0);
                            },
                            None => {
                            },
                        }
                        acc = acc + seq![pm];
                    }
                    i = j;
                }
            },
        }
    }
}

/// A key's count grows by one exactly when the appended member carries it.
proof fn lemma_key_count_push(
    ps: Seq<(Seq<u8>, Option<Seq<u8>>)>,
    p: (Seq<u8>, Option<Seq<u8>>),
    key: Seq<u8>,
)
    ensures
        key_count(ps.push(p), key) == key_count(ps, key) + (if p.0 == key {
            1nat
        } else {
            0nat
        }),
    decreases ps.len(),
{
    if ps.len() == 0 {
        assert(ps.push(p)[0] == p);
        assert(ps.push(p).skip(1) =~= Seq::<(Seq<u8>, Option<Seq<u8>>)>::empty());
        assert(key_count(Seq::<(Seq<u8>, Option<Seq<u8>>)>::empty(), key) == 0);
    } else {
        assert(ps.push(p)[0] == ps[0]);
        assert(ps.push(p).skip(1) =~= ps.skip(1).push(p));
        lemma_key_count_push(ps.skip(1), p, key);
    }
}

/// The first member with a key is unchanged by appending, unless none was
/// there before.
proof fn lemma_find_push(
    ps: Seq<(Seq<u8>, Option<Seq<u8>>)>,
    p: (Seq<u8>, Option<Seq<u8>>),
    key: Seq<u8>,
)
    ensures
        find_value(ps.push(p), key) == (if find_value(ps, key) is Some {
            find_value(ps, key)
        } else if p.0 == key {
            Some(p.1)
        } else {
            None
        }),
    decreases ps.len(),
{
    if ps.len() == 0 {
        assert(ps.push(p)[0] == p);
        assert(ps.push(p).skip(1) =~= Seq::<(Seq<u8>, Option<Seq<u8>>)>::empty());
        assert(find_value(Seq::<(Seq<u8>, Option<Seq<u8>>)>::empty(), key) is None);
    } else {
        assert(ps.push(p)[0] == ps[0]);
        assert(ps.push(p).skip(1) =~= ps.skip(1).push(p));
        lemma_find_push(ps.skip(1), p, key);
    }
}

/// Whether two byte slices hold the same bytes.
fn bytes_eq(a: &[u8], b: &[u8]) -> (r: bool)
    ensures
        r == (a@ =~= b@),
{
    let n: usize = a.len();
    if b.len() != n {
        return false;
    }
    let mut k: usize = 0;
    while k < n
        invariant
            k <= n,
            n == a@.len(),
            n == b@.len(),
            forall|q: int| 0 <= q < k ==> a@[q] == b@[q],
        decreases n - k,
    {
        if a[k] != b[k] {
            return false;
        }
        k = k + 1;
    }
    proof {
        assert(a@ =~= b@);
    }
    true
}

/// Index of the member a required string field lives at: the field occurs
/// exactly once and its value is a string.
fn str_field_index(pairs: &Vec<(Vec<u8>, Option<Vec<u8>>)>, key: &[u8]) -> (r: Option<usize>)
    ensures
        r matches Some(q) ==> (q as int) < pairs@.len() && (pairs@[q as int].1 matches Some(vec)
            && str_field(pairs_view(*pairs), key@) == Some(vec@)),
        r is None ==> str_field(pairs_view(*pairs), key@) is None,
{
    let n: usize = pairs.len();
    let mut q: usize = 0;
    let mut cnt: usize = 0;
    let mut first: usize = 0;
    while q < n
        invariant
            q <= n,
            n == pairs@.len(),
            cnt <= q,
            cnt as nat == key_count(pairs_view(*pairs).take(q as int), key@),
            cnt > 0 ==> first < q && pairs_view(*pairs)[first as int].0 == key@ && find_value(
                pairs_view(*pairs).take(q as int),
                key@,
            ) == Some(pairs_view(*pairs)[first as int].1),
            cnt == 0 ==> find_value(pairs_view(*pairs).take(q as int), key@) is None,
        decreases n - q,
    {
        let m: bool = bytes_eq(pairs[q].0.as_slice(), key);
        proof {
            let pv = pairs_view(*pairs);
            assert(pv.take(q + 1) =~= pv.take(q as int).push(pv[q as int]));
            lemma_key_count_push(pv.take(q as int), pv[q as int], key@);
            lemma_find_push(pv.take(q as int), pv[q as int], key@);
            assert(pv[q as int].0 == pairs@[q as int].0@);
            if m {
                assert(pairs@[q as int].0@ =~= key@);
            } else {
                assert(!(pairs@[q as int].0@ =~= key@));
                assert(pv[q as int].0 != key@);
            }
        }
        if m {
            if cnt == 0 {
                first = q;
            }
            cnt = cnt + 1;
        }
        q = q + 1;
    }
    proof {
        assert(pairs_view(*pairs).take(n as int) =~= pairs_view(*pairs));
    }
    if cnt == 1 {
        match &pairs[first].1 {
            Some(_) => {
                proof {
                    assert(pairs_view(*pairs)[first as int].1 matches Some(v) && str_field(
                        pairs_view(*pairs),
                        key@,
                    ) == Some(v));
                }
                Some(first)
            },
            None => {
                proof {
                    assert(pairs_view(*pairs)[first as int].1 is None);
                    assert(str_field(pairs_view(*pairs), key@) is None);
                }
                None
            },
        }
    } else {
        None
    }
}

/// Decodes a required string field into text.
fn decoded_field_exec(pairs: &Vec<(Vec<u8>, Option<Vec<u8>>)>, key: &[u8]) -> (r: Option<String>)
    ensures
        r matches Some(st) ==> decoded_field(pairs_view(*pairs), key@) == Some(st@),
        r is None ==> decoded_field(pairs_view(*pairs), key@) is None,
{
    match str_field_index(pairs, key) {
        None => None,
        Some(q) => {
            match &pairs[q].1 {
                Some(content) => {
                    let bytes: Vec<u8> = vstd::slice::slice_to_vec(content.as_slice());
                    match bytes_to_string(bytes) {
                        Some(st) => {
                            proof {
                                vstd::utf8::encode_utf8_decode_utf8(st@);
                            }
                            Some(st)
                        },
                        None => None,
                    }
                },
                None => {
                    proof {
                        assert(false);
                    }
                    None
                },
            }
        },
    }
}

/// Parses one inbound signaling message from its wire bytes: any JSON
/// object with the `type` discriminator, in any field order, with unknown
/// fields ignored.
#[verifier::rlimit(80)]
pub fn parse_signal_response(s: &[u8]) -> (r: Option<SignalResponse>)
    ensures
        r matches Some(m) ==> parse_response(s@) == Some(m@),
        r is None ==> parse_response(s@) is None,
{
    let n: usize = s.len();
    proof {
        assert(s@.skip(0int) =~= s@);
    }
    let w: usize = skip_ws(s, 0);
    if w >= n || s[w] != 0x7b {
        return None;
    }
    let w1: usize = skip_ws(s, w + 1);
    proof {
        assert(s@.skip(w + 1).len() == n - (w + 1));
        if w1 < n {
            assert(s@.skip(w + 1)[(w1 - (w + 1)) as int] == s@[w1 as int]);
        }
    }
    let mut pairs: Vec<(Vec<u8>, Option<Vec<u8>>)> = Vec::new();
    let body_end: usize;
    if w1 < n && s[w1] == 0x7d {
        proof {
            assert(p_object_body(s@.skip(w + 1), JSON_DEPTH_LIMIT as nat) == Some(
                (Seq::<(Seq<u8>, Option<Seq<u8>>)>::empty(), ((w1 - w) as nat)),
            ));
        }
        body_end = w1 + 1;
    } else {
        proof {
            let sb = s@.skip(w + 1);
            let wsp = sp(sb);
            assert(!(wsp < sb.len() && sb[wsp as int] == 0x7d));
        }
        match parse_members(s, w + 1, JSON_DEPTH_LIMIT, &mut pairs) {
            Some(j) => {
                body_end = j;
            },
            None => {
                return None;
            },
        }
    }
    let w2: usize = skip_ws(s, body_end);
    if w2 != n {
        return None;
    }
    proof {
        assert(parse_fields(s@) == Some(pairs_view(pairs)));
    }
    let tagv: Vec<u8> = match str_field_index(&pairs, "type".as_bytes()) {
        None => {
            return None;
        },
        Some(q) => {
            match &pairs[q].1 {
                Some(content) => vstd::slice::slice_to_vec(content.as_slice()),
                None => {
                    proof {
                        assert(false);
                    }
                    return None;
                },
            }
        },
    };
    if bytes_eq(tagv.as_slice(), "session".as_bytes()) {
        match decoded_field_exec(&pairs, "id".as_bytes()) {
            Some(id) => Some(SignalResponse::Session { id }),
            None => None,
        }
    } else if bytes_eq(tagv.as_slice(), "offer".as_bytes()) {
        match decoded_field_exec(&pairs, "sdp".as_bytes()) {
            Some(sdp) => Some(SignalResponse::Offer { sdp }),
            None => None,
        }
    } else if bytes_eq(tagv.as_slice(), "answer".as_bytes()) {
        match decoded_field_exec(&pairs, "sdp".as_bytes()) {
            Some(sdp) => Some(SignalResponse::Answer { sdp }),
            None => None,
        }
    } else if bytes_eq(tagv.as_slice(), "ice_candidate".as_bytes()) {
        match decoded_field_exec(&pairs, "ice_candidate".as_bytes()) {
            Some(ice_candidate) => Some(SignalResponse::IceCandidate { ice_candidate }),
            None => None,
        }
    } else {
        None
    }
}


/// Plain content bytes pass escaping unchanged.
proof fn lemma_escaped_plain(s: Seq<u8>)
    requires
        forall|q: int| 0 <= q < s.len() ==> 0x20 <= #[trigger] s[q] && s[q] != 0x22 && s[q] != 0x5c,
    ensures
        escaped(s) =~= s,
    decreases s.len(),
{
    if s.len() == 0 {
    } else {
        assert(escaped_byte(s[0]) =~= seq![s[0]]);
        lemma_escaped_plain(s.skip(1));
        assert(escaped(s) =~= escaped_byte(s[0]) + escaped(s.skip(1)));
    }
}

/// The string reader recovers every canonically escaped content.
proof fn lemma_str_body_complete(t: Seq<u8>, rest: Seq<u8>)
    ensures
        str_body(escaped(t) + seq![0x22u8] + rest) == Some(
            (t, (escaped(t).len() + 1) as nat),
        ),
    decreases t.len(),
{
    let s = escaped(t) + seq![0x22u8] + rest;
    if t.len() == 0 {
        assert(escaped(t) =~= Seq::<u8>::empty());
        assert(s[0] == 0x22);
    } else {
        let b = t[0];
        let t1 = t.skip(1);
        lemma_str_body_complete(t1, rest);
        let s1 = escaped(t1) + seq![0x22u8] + rest;
        assert(escaped(t) =~= escaped_byte(b) + escaped(t1));
        let eb = escaped_byte(b);
        assert(s =~= eb + s1);
        assert(forall|q2: int| 0 <= q2 < eb.len() ==> s[q2] == eb[q2]);
        assert(s.len() == eb.len() + s1.len());
        if b == 0x22 || b == 0x5c {
            assert(s[0] == 0x5c && s[1] == b && short_escape(s[1]));
            assert(s.skip(2) =~= s1);
            assert(short_unescaped(b) == b);
            assert(seq![b] + t1 =~= t);
        } else if b == 0x08 || b == 0x09 || b == 0x0a || b == 0x0c || b == 0x0d {
            assert(s[0] == 0x5c && short_escape(s[1]));
            assert(s.skip(2) =~= s1);
            assert(short_unescaped(s[1]) == b);
            assert(seq![b] + t1 =~= t);
        } else if b < 0x20 {
            assert(eb =~= seq![0x5cu8, 0x75u8, 0x30u8, 0x30u8, hex_digit(b / 16), hex_digit(
                b % 16,
            )]);
            assert(s[0] == 0x5c && s[1] == 0x75 && s[2] == 0x30 && s[3] == 0x30);
            assert(s[4] == hex_digit(b / 16) && s[5] == hex_digit(b % 16));
            assert(b / 16 < 2 && b % 16 < 16);
            assert(is_hex(s[2]) && is_hex(s[3]) && is_hex(s[4]) && is_hex(s[5]));
            assert(hex_val(hex_digit(b / 16)) == b / 16);
            assert(hex_val(hex_digit(b % 16)) == b % 16);
            assert(16 * (b / 16) + (b % 16) == b) by (nonlinear_arith);
            assert(hex4(s[2], s[3], s[4], s[5]) == b);
            assert(!(0xd800 <= b && b <= 0xdbff) && !(0xdc00 <= b && b <= 0xdfff));
            assert(utf8_of_scalar(b as u32) =~= seq![b]);
            assert(!short_escape(s[1]));
            assert(s.skip(6) =~= s1);
            assert(utf8_of_scalar(b as u32) + t1 =~= t);
        } else {
            assert(s[0] == b);
            assert(s[0] != 0x22 && s[0] != 0x5c && !(s[0] < 0x20));
            assert(s.skip(1) =~= s1);
            assert(seq![b] + t1 =~= t);
        }
    }
}

/// One canonically encoded member: a plain key, a string value, and what
/// follows it.
pub open spec fn member_bytes(k: Seq<u8>, c: Seq<u8>, after: Seq<u8>) -> Seq<u8> {
    seq![0x22u8] + k + seq![0x22u8, 0x3au8, 0x22u8] + escaped(c) + seq![0x22u8] + after
}

/// How `p_members` reads one canonically encoded member.
#[verifier::rlimit(100)]
#[verifier::spinoff_prover]
proof fn lemma_member(k: Seq<u8>, c: Seq<u8>, after: Seq<u8>, d: nat)
    requires
        forall|q: int| 0 <= q < k.len() ==> 0x20 <= #[trigger] k[q] && k[q] != 0x22 && k[q] != 0x5c,
        after.len() > 0,
    ensures
        after[0] == 0x7d ==> p_members(member_bytes(k, c, after), d) == Some(
            (
                seq![(k, Some(c))],
                (member_bytes(k, c, after).len() - after.len() + 1) as nat,
            ),
        ),
        after[0] == 0x2c ==> p_members(member_bytes(k, c, after), d) == (match p_members(
            after.skip(1),
            d,
        ) {
            Some(pr) => Some(
                (
                    seq![(k, Some(c))] + pr.0,
                    ((member_bytes(k, c, after).len() - after.len() + 1) as nat + pr.1) as nat,
                ),
            ),
            None => None,
        }),
{
    let body = member_bytes(k, c, after);
    let kl = k.len() as int;
    let el = escaped(c).len() as int;
    lemma_escaped_plain(k);
    assert(body.skip(0int) =~= body);
    assert(body[0] == 0x22);
    assert(!is_ws(body[0]));
    assert(sp(body) == 0);
    let rest_k = seq![0x3au8, 0x22u8] + escaped(c) + seq![0x22u8] + after;
    assert(body.skip(1) =~= escaped(k) + seq![0x22u8] + rest_k);
    lemma_str_body_complete(k, rest_k);
    assert(str_body(body.skip(1)) == Some((k, (kl + 1) as nat)));
    assert(p_string(body) == Some((k, (kl + 2) as nat)));
    let i1 = kl + 2;
    assert(i1 < body.len());
    assert(body[i1] == 0x3a);
    assert(body.skip(i1)[0] == 0x3a);
    assert(!is_ws(body.skip(i1)[0]));
    assert(sp(body.skip(i1)) == 0);
    let i3 = i1 + 1;
    assert(body.skip(i3)[0] == body[i3]);
    assert(body[i3] == 0x22);
    assert(sp(body.skip(i3)) == 0);
    let sv = body.skip(i3);
    assert(sv[0] == 0x22);
    assert(sv.skip(1) =~= escaped(c) + seq![0x22u8] + after);
    lemma_str_body_complete(c, after);
    assert(str_body(sv.skip(1)) == Some((c, (el + 1) as nat)));
    assert(p_string(sv) == Some((c, (el + 2) as nat)));
    let i5 = i3 + el + 2;
    assert(i5 == body.len() - after.len());
    assert(i5 < body.len());
    assert(body.skip(i5) =~= after);
    assert(body.skip(i5)[0] == after[0]);
    if after[0] == 0x7d || after[0] == 0x2c {
        assert(!is_ws(after[0]));
        assert(sp(body.skip(i5)) == 0);
        assert(body[i5] == after[0]);
        assert(body.skip(i5 + 1) =~= after.skip(1));
        assert(p_member_rest(body, d, k, Some(c), i5 as nat) == (if after[0] == 0x7d {
            Some((seq![(k, Some(c))], (i5 + 1) as nat))
        } else {
            match p_members(after.skip(1), d) {
                Some(pr) => Some((seq![(k, Some(c))] + pr.0, ((i5 + 1) as nat + pr.1) as nat)),
                None => None,
            }
        }));
        assert(p_members(body, d) == p_member_rest(body, d, k, Some(c), i5 as nat));
    }
}

/// Field lookup over exactly two members with distinct keys.
proof fn lemma_two_pairs_fields(k1: Seq<u8>, v1: Seq<u8>, k2: Seq<u8>, v2: Seq<u8>)
    requires
        k1 != k2,
    ensures
        str_field(seq![(k1, Some(v1)), (k2, Some(v2))], k1) == Some(v1),
        str_field(seq![(k1, Some(v1)), (k2, Some(v2))], k2) == Some(v2),
{
    let ps = seq![(k1, Some(v1)), (k2, Some(v2))];
    let ps1 = seq![(k2, Some(v2))];
    assert(ps[0].0 == k1);
    assert(ps1[0].0 == k2);
    assert(ps.skip(1) =~= ps1);
    assert(ps1.skip(1) =~= Seq::<(Seq<u8>, Option<Seq<u8>>)>::empty());
    assert(key_count(Seq::<(Seq<u8>, Option<Seq<u8>>)>::empty(), k1) == 0);
    assert(key_count(Seq::<(Seq<u8>, Option<Seq<u8>>)>::empty(), k2) == 0);
    assert(key_count(ps1, k1) == 0);
    assert(key_count(ps1, k2) == 1);
    assert(find_value(ps1, k2) == Some(Some(v2)));
    assert(key_count(ps, k1) == 1);
    assert(key_count(ps, k2) == 1);
    assert(find_value(ps, k1) == Some(Some(v1)));
    assert(find_value(ps, k2) == Some(Some(v2)));
}

/// A canonical two-field object parses to exactly its two members.
#[verifier::rlimit(100)]
#[verifier::spinoff_prover]
proof fn lemma_parse_two_field(tk: Seq<u8>, tagb: Seq<u8>, fk: Seq<u8>, content: Seq<u8>, b: Seq<u8>)
    requires
        forall|q: int| 0 <= q < tk.len() ==> 0x20 <= #[trigger] tk[q] && tk[q] != 0x22 && tk[q]
            != 0x5c,
        forall|q: int| 0 <= q < fk.len() ==> 0x20 <= #[trigger] fk[q] && fk[q] != 0x22 && fk[q]
            != 0x5c,
        b =~= seq![0x7bu8] + member_bytes(
            tk,
            tagb,
            seq![0x2cu8] + member_bytes(fk, content, seq![0x7du8]),
        ),
    ensures
        parse_fields(b) == Some(seq![(tk, Some(tagb)), (fk, Some(content))]),
{
    let inner = member_bytes(fk, content, seq![0x7du8]);
    let outer = member_bytes(tk, tagb, seq![0x2cu8] + inner);
    lemma_member(fk, content, seq![0x7du8], JSON_DEPTH_LIMIT as nat);
    assert(p_members(inner, JSON_DEPTH_LIMIT as nat) == Some(
        (seq![(fk, Some(content))], inner.len() as nat),
    ));
    lemma_member(tk, tagb, seq![0x2cu8] + inner, JSON_DEPTH_LIMIT as nat);
    assert((seq![0x2cu8] + inner)[0] == 0x2c);
    assert((seq![0x2cu8] + inner).skip(1) =~= inner);
    assert(p_members(outer, JSON_DEPTH_LIMIT as nat) == Some(
        (seq![(tk, Some(tagb))] + seq![(fk, Some(content))], outer.len() as nat),
    ));
    assert(b[0] == 0x7b);
    assert(!is_ws(b[0]));
    assert(sp(b) == 0);
    assert(b.skip(1int) =~= outer);
    assert(outer[0] == 0x22);
    assert(!is_ws(outer[0]));
    assert(sp(outer) == 0);
    assert(!(sp(outer) < outer.len() && outer[sp(outer) as int] == 0x7d));
    assert(p_object_body(b.skip(1int), JSON_DEPTH_LIMIT as nat) == Some(
        (seq![(tk, Some(tagb))] + seq![(fk, Some(content))], outer.len() as nat),
    ));
    assert(b.len() == 1 + outer.len());
    assert(b.skip(1 + outer.len() as int) =~= Seq::<u8>::empty());
    assert(sp(Seq::<u8>::empty()) == 0);
    assert(seq![(tk, Some(tagb))] + seq![(fk, Some(content))] =~= seq![
        (tk, Some(tagb)),
        (fk, Some(content)),
    ]);
}

/// Round trip of the wire codec: every inbound message is parsed back from
/// its canonical wire form.
#[verifier::rlimit(100)]
#[verifier::spinoff_prover]
pub proof fn lemma_response_round_trip(m: ResponseModel)
    ensures
        parse_response(enc_response(m)) == Some(m),
{
    reveal_strlit("type");
    reveal_strlit("session");
    reveal_strlit("offer");
    reveal_strlit("answer");
    reveal_strlit("ice_candidate");
    reveal_strlit("id");
    reveal_strlit("sdp");
    reveal_strlit("\"}");
    reveal_strlit("{\"type\":\"session\",\"id\":\"");
    reveal_strlit("{\"type\":\"offer\",\"sdp\":\"");
    reveal_strlit("{\"type\":\"answer\",\"sdp\":\"");
    reveal_strlit("{\"type\":\"ice_candidate\",\"ice_candidate\":\"");
    assert(is_ascii_chars("type"@));
    assert(is_ascii_chars("session"@));
    assert(is_ascii_chars("offer"@));
    assert(is_ascii_chars("answer"@));
    assert(is_ascii_chars("ice_candidate"@));
    assert(is_ascii_chars("id"@));
    assert(is_ascii_chars("sdp"@));
    assert(is_ascii_chars("\"}"@));
    assert(is_ascii_chars("{\"type\":\"session\",\"id\":\""@));
    assert(is_ascii_chars("{\"type\":\"offer\",\"sdp\":\""@));
    assert(is_ascii_chars("{\"type\":\"answer\",\"sdp\":\""@));
    assert(is_ascii_chars("{\"type\":\"ice_candidate\",\"ice_candidate\":\""@));
    vstd::utf8::is_ascii_chars_encode_utf8("type"@);
    vstd::utf8::is_ascii_chars_encode_utf8("session"@);
    vstd::utf8::is_ascii_chars_encode_utf8("offer"@);
    vstd::utf8::is_ascii_chars_encode_utf8("answer"@);
    vstd::utf8::is_ascii_chars_encode_utf8("ice_candidate"@);
    vstd::utf8::is_ascii_chars_encode_utf8("id"@);
    vstd::utf8::is_ascii_chars_encode_utf8("sdp"@);
    vstd::utf8::is_ascii_chars_encode_utf8("\"}"@);
    vstd::utf8::is_ascii_chars_encode_utf8("{\"type\":\"session\",\"id\":\""@);
    vstd::utf8::is_ascii_chars_encode_utf8("{\"type\":\"offer\",\"sdp\":\""@);
    vstd::utf8::is_ascii_chars_encode_utf8("{\"type\":\"answer\",\"sdp\":\""@);
    vstd::utf8::is_ascii_chars_encode_utf8("{\"type\":\"ice_candidate\",\"ice_candidate\":\""@);
    let tk = "type".spec_bytes();
    assert(forall|q: int| 0 <= q < tk.len() ==> 0x20 <= #[trigger] tk[q] && tk[q] != 0x22 && tk[q]
        != 0x5c);
    match m {
        ResponseModel::Session { id } => {
            lemma_rt_variant(
                "{\"type\":\"session\",\"id\":\"".spec_bytes(),
                "session".spec_bytes(),
                "id".spec_bytes(),
                id,
            );
            lemma_dispatch(m, "session".spec_bytes(), "id".spec_bytes(), id);
        },
        ResponseModel::Offer { sdp } => {
            lemma_rt_variant(
                "{\"type\":\"offer\",\"sdp\":\"".spec_bytes(),
                "offer".spec_bytes(),
                "sdp".spec_bytes(),
                sdp,
            );
            lemma_dispatch(m, "offer".spec_bytes(), "sdp".spec_bytes(), sdp);
        },
        ResponseModel::Answer { sdp } => {
            lemma_rt_variant(
                "{\"type\":\"answer\",\"sdp\":\"".spec_bytes(),
                "answer".spec_bytes(),
                "sdp".spec_bytes(),
                sdp,
            );
            lemma_dispatch(m, "answer".spec_bytes(), "sdp".spec_bytes(), sdp);
        },
        ResponseModel::IceCandidate { ice_candidate } => {
            lemma_rt_variant(
                "{\"type\":\"ice_candidate\",\"ice_candidate\":\"".spec_bytes(),
                "ice_candidate".spec_bytes(),
                "ice_candidate".spec_bytes(),
                ice_candidate,
            );
            lemma_dispatch(
                m,
                "ice_candidate".spec_bytes(),
                "ice_candidate".spec_bytes(),
                ice_candidate,
            );
        },
    }
}

/// The canonical encoding of one variant parses to its two members.
#[verifier::rlimit(100)]
#[verifier::spinoff_prover]
proof fn lemma_rt_variant(headb: Seq<u8>, tagb: Seq<u8>, fieldb: Seq<u8>, chars: Seq<char>)
    requires
        forall|q: int| 0 <= q < tagb.len() ==> 0x20 <= #[trigger] tagb[q] && tagb[q] != 0x22
            && tagb[q] != 0x5c,
        forall|q: int| 0 <= q < fieldb.len() ==> 0x20 <= #[trigger] fieldb[q] && fieldb[q] != 0x22
            && fieldb[q] != 0x5c,
        forall|q: int| 0 <= q < "type".spec_bytes().len() ==> 0x20 <= #[trigger] "type".spec_bytes()[q]
            && "type".spec_bytes()[q] != 0x22 && "type".spec_bytes()[q] != 0x5c,
        headb =~= seq![0x7bu8, 0x22u8] + "type".spec_bytes() + seq![0x22u8, 0x3au8, 0x22u8] + tagb
            + seq![0x22u8, 0x2cu8, 0x22u8] + fieldb + seq![0x22u8, 0x3au8, 0x22u8],
        "\"}".spec_bytes() =~= seq![0x22u8, 0x7du8],
    ensures
        parse_fields(headb + escaped(encode_utf8(chars)) + "\"}".spec_bytes()) == Some(
            seq![
                ("type".spec_bytes(), Some(tagb)),
                (fieldb, Some(encode_utf8(chars))),
            ],
        ),
{
    let tk = "type".spec_bytes();
    let content = encode_utf8(chars);
    let b = headb + escaped(content) + "\"}".spec_bytes();
    lemma_escaped_plain(tagb);
    let inner = member_bytes(fieldb, content, seq![0x7du8]);
    let outer = member_bytes(tk, tagb, seq![0x2cu8] + inner);
    assert(b =~= seq![0x7bu8] + outer);
    lemma_parse_two_field(tk, tagb, fieldb, content, b);
}

/// Looking the tag and the payload up in the parsed members yields the
/// message back.
#[verifier::rlimit(100)]
#[verifier::spinoff_prover]
proof fn lemma_dispatch(m: ResponseModel, tagb: Seq<u8>, fieldb: Seq<u8>, chars: Seq<char>)
    requires
        parse_fields(enc_response(m)) == Some(
            seq![
                ("type".spec_bytes(), Some(tagb)),
                (fieldb, Some(encode_utf8(chars))),
            ],
        ),
        fieldb != "type".spec_bytes(),
        m matches ResponseModel::Session { id } ==> tagb == "session".spec_bytes() && fieldb
            == "id".spec_bytes() && chars == id,
        m matches ResponseModel::Offer { sdp } ==> tagb == "offer".spec_bytes() && fieldb
            == "sdp".spec_bytes() && chars == sdp,
        m matches ResponseModel::Answer { sdp } ==> tagb == "answer".spec_bytes() && fieldb
            == "sdp".spec_bytes() && chars == sdp,
        m matches ResponseModel::IceCandidate { ice_candidate } ==> tagb
            == "ice_candidate".spec_bytes() && fieldb == "ice_candidate".spec_bytes() && chars
            == ice_candidate,
        tagb == "session".spec_bytes() || tagb == "offer".spec_bytes() || tagb
            == "answer".spec_bytes() || tagb == "ice_candidate".spec_bytes(),
        "session".spec_bytes().len() == 7,
        "offer".spec_bytes().len() == 5,
        "answer".spec_bytes().len() == 6,
        "ice_candidate".spec_bytes().len() == 13,
    ensures
        parse_response(enc_response(m)) == Some(m),
{
    let tk = "type".spec_bytes();
    let content = encode_utf8(chars);
    let pairs = seq![(tk, Some(tagb)), (fieldb, Some(content))];
    lemma_two_pairs_fields(tk, tagb, fieldb, content);
    assert(str_field(pairs, tk) == Some(tagb));
    assert(str_field(pairs, fieldb) == Some(content));
    vstd::utf8::encode_utf8_valid_utf8(chars);
    vstd::utf8::encode_utf8_decode_utf8(chars);
    assert(valid_utf8(content) && decode_utf8(content) == chars);
}

} // verus!
