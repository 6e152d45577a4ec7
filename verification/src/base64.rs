//! Base64 encoding and decoding of image payloads, including the
//! data-URL conveniences the response layer uses.
//!
//! The codec is the standard alphabet with `=` padding; decoding
//! requires canonical padding and zero leftover bits, accepts the
//! payload after the last comma of a data URL, and ignores surrounding
//! ASCII whitespace.

use vstd::prelude::*;
use vstd::string::*;

use crate::error::AppError;
use crate::text::{find_char, push_char, rfind_char, seq_starts_with, starts_with_str};

verus! {

/// Alphabet character of a 6-bit value.
pub open spec fn b64_char(v: u8) -> char {
    if v < 26 {
        (((v + 65) as u8) as char)
    } else if v < 52 {
        (((v + 71) as u8) as char)
    } else if v < 62 {
        (((v - 4) as u8) as char)
    } else if v == 62 {
        '+'
    } else {
        '/'
    }
}

/// 6-bit value of an alphabet character, `None` outside the alphabet.
pub open spec fn b64_val(c: char) -> Option<u8> {
    if 'A' <= c && c <= 'Z' {
        Some(((c as u8) - 65) as u8)
    } else if 'a' <= c && c <= 'z' {
        Some(((c as u8) - 71) as u8)
    } else if '0' <= c && c <= '9' {
        Some(((c as u8) + 4) as u8)
    } else if c == '+' {
        Some(62u8)
    } else if c == '/' {
        Some(63u8)
    } else {
        None
    }
}

/// Four alphabet characters encoding three bytes.
pub open spec fn enc_group(b0: u8, b1: u8, b2: u8) -> Seq<char> {
    seq![
        b64_char(b0 >> 2),
        b64_char(((b0 & 3) << 4) | (b1 >> 4)),
        b64_char(((b1 & 15) << 2) | (b2 >> 6)),
        b64_char(b2 & 63),
    ]
}

/// Final quartet encoding a single trailing byte.
pub open spec fn enc_tail1(b0: u8) -> Seq<char> {
    seq![b64_char(b0 >> 2), b64_char((b0 & 3) << 4), '=', '=']
}

/// Final quartet encoding two trailing bytes.
pub open spec fn enc_tail2(b0: u8, b1: u8) -> Seq<char> {
    seq![b64_char(b0 >> 2), b64_char(((b0 & 3) << 4) | (b1 >> 4)), b64_char((b1 & 15) << 2), '=']
}

/// Base64 encoding of a byte sequence.
pub open spec fn encode_spec(s: Seq<u8>) -> Seq<char>
    decreases s.len(),
{
    if s.len() == 0 {
        Seq::empty()
    } else if s.len() == 1 {
        enc_tail1(s[0])
    } else if s.len() == 2 {
        enc_tail2(s[0], s[1])
    } else {
        enc_group(s[0], s[1], s[2]) + encode_spec(s.skip(3))
    }
}

/// Three bytes of a padding-free quartet of 6-bit values.
pub open spec fn dec3(v0: u8, v1: u8, v2: u8, v3: u8) -> Seq<u8> {
    seq![((v0 << 2) | (v1 >> 4)) as u8, (((v1 & 15) << 4) | (v2 >> 2)) as u8, (((v2 & 3) << 6) | v3) as u8]
}

/// Decoding of a quartet that no further input follows; `=` padding is
/// admitted here and leftover bits must be zero.
pub open spec fn dec_last_group(c0: char, c1: char, c2: char, c3: char) -> Option<Seq<u8>> {
    match (b64_val(c0), b64_val(c1)) {
        (Some(v0), Some(v1)) => if c2 == '=' && c3 == '=' {
            if v1 & 15 == 0 {
                Some(seq![((v0 << 2) | (v1 >> 4)) as u8])
            } else {
                None
            }
        } else if c3 == '=' {
            match b64_val(c2) {
                Some(v2) => if v2 & 3 == 0 {
                    Some(seq![((v0 << 2) | (v1 >> 4)) as u8, (((v1 & 15) << 4) | (v2 >> 2)) as u8])
                } else {
                    None
                },
                None => None,
            }
        } else {
            match (b64_val(c2), b64_val(c3)) {
                (Some(v2), Some(v3)) => Some(dec3(v0, v1, v2, v3)),
                _ => None,
            }
        },
        _ => None,
    }
}

/// Decoding of a quartet that more input follows: no padding admitted.
pub open spec fn dec_full_group(c0: char, c1: char, c2: char, c3: char) -> Option<Seq<u8>> {
    match (b64_val(c0), b64_val(c1), b64_val(c2), b64_val(c3)) {
        (Some(v0), Some(v1), Some(v2), Some(v3)) => Some(dec3(v0, v1, v2, v3)),
        _ => None,
    }
}

/// Base64 decoding of a character sequence.
pub open spec fn decode_spec(s: Seq<char>) -> Option<Seq<u8>>
    decreases s.len(),
{
    if s.len() == 0 {
        Some(Seq::empty())
    } else if s.len() == 4 {
        dec_last_group(s[0], s[1], s[2], s[3])
    } else if s.len() % 4 == 0 {
        match dec_full_group(s[0], s[1], s[2], s[3]) {
            Some(h) => match decode_spec(s.skip(4)) {
                Some(t) => Some(h + t),
                None => None,
            },
            None => None,
        }
    } else {
        None
    }
}

/// ASCII whitespace that decoding tolerates around the payload.
pub open spec fn is_b64_ws(c: char) -> bool {
    c == ' ' || c == '\t' || c == '\n' || c == '\r'
}

/// Leading whitespace removed.
pub open spec fn ltrim(s: Seq<char>) -> Seq<char>
    decreases s.len(),
{
    if s.len() > 0 && is_b64_ws(s[0]) {
        ltrim(s.skip(1))
    } else {
        s
    }
}

/// Trailing whitespace removed.
pub open spec fn rtrim(s: Seq<char>) -> Seq<char>
    decreases s.len(),
{
    if s.len() > 0 && is_b64_ws(s.last()) {
        rtrim(s.drop_last())
    } else {
        s
    }
}

/// Surrounding whitespace removed.
pub open spec fn trim_spec(s: Seq<char>) -> Seq<char> {
    rtrim(ltrim(s))
}

/// The suffix after the last comma; the whole sequence when no comma
/// occurs. This models taking the payload of a data URL.
pub open spec fn after_last_comma(s: Seq<char>) -> Seq<char>
    decreases s.len(),
{
    if s.len() == 0 {
        s
    } else if s.last() == ',' {
        Seq::empty()
    } else {
        after_last_comma(s.drop_last()).push(s.last())
    }
}

/// What decoding actually parses out of its input string.
pub open spec fn payload_of(s: Seq<char>) -> Seq<char> {
    trim_spec(after_last_comma(s))
}

/// Alphabet character of a 6-bit value.
fn b64_char_exec(v: u8) -> (c: char)
    requires
        v < 64,
    ensures
        c == b64_char(v),
{
    if v < 26 {
        ((v + 65) as char)
    } else if v < 52 {
        ((v + 71) as char)
    } else if v < 62 {
        ((v - 4) as char)
    } else if v == 62 {
        '+'
    } else {
        '/'
    }
}

/// 6-bit value of an alphabet character.
fn b64_val_exec(c: char) -> (r: Option<u8>)
    ensures
        r == b64_val(c),
{
    if c >= 'A' && c <= 'Z' {
        Some((c as u8) - 65)
    } else if c >= 'a' && c <= 'z' {
        Some((c as u8) - 71)
    } else if c >= '0' && c <= '9' {
        Some((c as u8) + 4)
    } else if c == '+' {
        Some(62)
    } else if c == '/' {
        Some(63)
    } else {
        None
    }
}

proof fn lemma_encode_empty()
    ensures
        encode_spec(Seq::<u8>::empty()) == Seq::<char>::empty(),
{
}

/// A sequence of exactly three bytes encodes to one quartet.
proof fn lemma_encode_triple(s: Seq<u8>)
    requires
        s.len() == 3,
    ensures
        encode_spec(s) == enc_group(s[0], s[1], s[2]),
{
    lemma_encode_empty();
    assert(s.skip(3) =~= Seq::<u8>::empty());
    assert(enc_group(s[0], s[1], s[2]) + Seq::<char>::empty() =~= enc_group(s[0], s[1], s[2]));
}

/// Concatenation distributes over encoding when the first part is made
/// of whole byte triples.
proof fn lemma_encode_append(a: Seq<u8>, b: Seq<u8>)
    requires
        a.len() % 3 == 0,
    ensures
        encode_spec(a + b) == encode_spec(a) + encode_spec(b),
    decreases a.len(),
{
    if a.len() == 0 {
        assert(a + b =~= b);
        assert(encode_spec(a) + encode_spec(b) =~= encode_spec(b));
    } else {
        assert(a.len() >= 3);
        let ab = a + b;
        assert(ab.len() >= 3);
        if ab.len() == 3 {
            assert(b.len() == 0);
            assert(a =~= ab);
            assert(ab.skip(3) =~= Seq::<u8>::empty());
            assert(encode_spec(ab) =~= enc_group(ab[0], ab[1], ab[2]) + encode_spec(ab.skip(3)));
            assert(encode_spec(a) + encode_spec(b) =~= encode_spec(a));
        } else {
            assert(ab.skip(3) =~= a.skip(3) + b);
            lemma_encode_append(a.skip(3), b);
            if a.len() == 3 {
                assert(a.skip(3) =~= Seq::<u8>::empty());
                assert(encode_spec(a) =~= enc_group(a[0], a[1], a[2]));
            } else {
                assert(encode_spec(a) =~= enc_group(a[0], a[1], a[2]) + encode_spec(a.skip(3)));
            }
            assert(ab[0] == a[0] && ab[1] == a[1] && ab[2] == a[2]);
            assert(encode_spec(ab) =~= enc_group(a[0], a[1], a[2]) + (encode_spec(a.skip(3))
                + encode_spec(b)));
            assert(encode_spec(a) + encode_spec(b) =~= enc_group(a[0], a[1], a[2]) + (encode_spec(
                a.skip(3),
            ) + encode_spec(b)));
        }
    }
}

/// Encode binary data to a base64 string.
pub fn encode(data: &[u8]) -> (r: String)
    ensures
        r@ == encode_spec(data@),
{
    let n: usize = data.len();
    let mut out: String = String::new();
    let mut i: usize = 0;
    while n - i >= 3
        invariant
            i <= n,
            i % 3 == 0,
            n == data@.len(),
            out@ == encode_spec(data@.subrange(0, i as int)),
        decreases n - i,
    {
        let b0: u8 = *vstd::slice::slice_index_get(data, i);
        let b1: u8 = *vstd::slice::slice_index_get(data, i + 1);
        let b2: u8 = *vstd::slice::slice_index_get(data, i + 2);
        assert((b0 >> 2) < 64 && (((b0 & 3) << 4) | (b1 >> 4)) < 64 && (((b1 & 15) << 2) | (b2
            >> 6)) < 64 && (b2 & 63) < 64) by (bit_vector);
        push_char(&mut out, b64_char_exec(b0 >> 2));
        push_char(&mut out, b64_char_exec(((b0 & 3) << 4) | (b1 >> 4)));
        push_char(&mut out, b64_char_exec(((b1 & 15) << 2) | (b2 >> 6)));
        push_char(&mut out, b64_char_exec(b2 & 63));
        proof {
            let pre = data@.subrange(0, i as int);
            let grp = data@.subrange(i as int, i + 3);
            lemma_encode_append(pre, grp);
            assert(pre + grp =~= data@.subrange(0, i + 3));
            lemma_encode_triple(grp);
            assert(out@ =~= encode_spec(pre) + enc_group(grp[0], grp[1], grp[2]));
            assert(out@ =~= encode_spec(data@.subrange(0, i + 3)));
        }
        i = i + 3;
    }
    let rem: usize = n - i;
    if rem == 1 {
        let b0: u8 = *vstd::slice::slice_index_get(data, i);
        assert((b0 >> 2) < 64 && ((b0 & 3) << 4) < 64) by (bit_vector);
        push_char(&mut out, b64_char_exec(b0 >> 2));
        push_char(&mut out, b64_char_exec((b0 & 3) << 4));
        push_char(&mut out, '=');
        push_char(&mut out, '=');
        proof {
            let pre = data@.subrange(0, i as int);
            let tail = data@.subrange(i as int, n as int);
            lemma_encode_append(pre, tail);
            assert(pre + tail =~= data@);
            assert(encode_spec(tail) =~= enc_tail1(tail[0]));
            assert(out@ =~= encode_spec(data@));
        }
    } else if rem == 2 {
        let b0: u8 = *vstd::slice::slice_index_get(data, i);
        let b1: u8 = *vstd::slice::slice_index_get(data, i + 1);
        assert((b0 >> 2) < 64 && (((b0 & 3) << 4) | (b1 >> 4)) < 64 && ((b1 & 15) << 2) < 64)
            by (bit_vector);
        push_char(&mut out, b64_char_exec(b0 >> 2));
        push_char(&mut out, b64_char_exec(((b0 & 3) << 4) | (b1 >> 4)));
        push_char(&mut out, b64_char_exec((b1 & 15) << 2));
        push_char(&mut out, '=');
        proof {
            let pre = data@.subrange(0, i as int);
            let tail = data@.subrange(i as int, n as int);
            lemma_encode_append(pre, tail);
            assert(pre + tail =~= data@);
            assert(encode_spec(tail) =~= enc_tail2(tail[0], tail[1]));
            assert(out@ =~= encode_spec(data@));
        }
    } else {
        proof {
            assert(data@.subrange(0, i as int) =~= data@);
        }
    }
    out
}

/// The last comma's suffix, computed on the view of a substring.
proof fn lemma_after_last_comma_at(s: Seq<char>, i: int)
    requires
        0 <= i < s.len(),
        s[i] == ',',
        forall|j: int| i < j < s.len() ==> s[j] != ',',
    ensures
        after_last_comma(s) == s.subrange(i + 1, s.len() as int),
    decreases s.len(),
{
    if i == s.len() - 1 {
        assert(s.subrange(i + 1, s.len() as int) =~= Seq::<char>::empty());
    } else {
        assert(s.last() != ',');
        lemma_after_last_comma_at(s.drop_last(), i);
        assert(s.drop_last().subrange(i + 1, s.len() - 1).push(s.last()) =~= s.subrange(
            i + 1,
            s.len() as int,
        ));
    }
}

/// Without a comma the payload suffix is the whole sequence.
proof fn lemma_after_last_comma_none(s: Seq<char>)
    requires
        forall|j: int| 0 <= j < s.len() ==> s[j] != ',',
    ensures
        after_last_comma(s) == s,
    decreases s.len(),
{
    if s.len() > 0 {
        lemma_after_last_comma_none(s.drop_last());
        assert(s.drop_last().push(s.last()) =~= s);
    }
}

/// Dropping each leading whitespace character in turn reaches `skip`.
proof fn lemma_ltrim_skip(s: Seq<char>, a: int)
    requires
        0 <= a <= s.len(),
        forall|j: int| 0 <= j < a ==> is_b64_ws(s[j]),
        a < s.len() ==> !is_b64_ws(s[a]),
    ensures
        ltrim(s) == s.skip(a),
    decreases a,
{
    if a == 0 {
        assert(s.skip(0) =~= s);
    } else {
        assert(is_b64_ws(s[0]));
        lemma_ltrim_skip(s.skip(1), a - 1);
        assert(s.skip(1).skip(a - 1) =~= s.skip(a));
    }
}

/// Dropping each trailing whitespace character in turn reaches a prefix.
proof fn lemma_rtrim_prefix(s: Seq<char>, b: int)
    requires
        0 <= b <= s.len(),
        forall|j: int| b <= j < s.len() ==> is_b64_ws(s[j]),
        b > 0 ==> !is_b64_ws(s[b - 1]),
    ensures
        rtrim(s) == s.subrange(0, b),
    decreases s.len() - b,
{
    if b == s.len() {
        if s.len() == 0 || !is_b64_ws(s.last()) {
            assert(s.subrange(0, b) =~= s);
        } else {
            lemma_rtrim_prefix(s.drop_last(), b - 1);
            assert(s.drop_last() =~= s.subrange(0, b - 1));
            assert(false);
        }
    } else {
        assert(is_b64_ws(s.last()));
        lemma_rtrim_prefix(s.drop_last(), b);
        assert(s.drop_last().subrange(0, b) =~= s.subrange(0, b));
    }
}

/// Surrounding ASCII whitespace removed; borrows from the input.
fn trim_ascii<'a>(s: &'a str) -> (r: &'a str)
    ensures
        r@ == trim_spec(s@),
{
    let n: usize = s.unicode_len();
    let mut a: usize = 0;
    loop
        invariant
            a <= n,
            n == s@.len(),
            forall|j: int| 0 <= j < a ==> is_b64_ws(s@[j]),
        ensures
            a <= n,
            forall|j: int| 0 <= j < a ==> is_b64_ws(s@[j]),
            a < n ==> !is_b64_ws(s@[a as int]),
        decreases n - a,
    {
        if a == n {
            break ;
        }
        let c: char = s.get_char(a);
        if !(c == ' ' || c == '\t' || c == '\n' || c == '\r') {
            break ;
        }
        a = a + 1;
    }
    proof {
        lemma_ltrim_skip(s@, a as int);
    }
    let mut b: usize = n;
    loop
        invariant
            a <= b <= n,
            n == s@.len(),
            forall|j: int| b <= j < n ==> is_b64_ws(s@[j]),
        ensures
            a <= b <= n,
            forall|j: int| b <= j < n ==> is_b64_ws(s@[j]),
            b > a ==> !is_b64_ws(s@[b - 1]),
        decreases b,
    {
        if b == a {
            break ;
        }
        let c: char = s.get_char(b - 1);
        if !(c == ' ' || c == '\t' || c == '\n' || c == '\r') {
            break ;
        }
        b = b - 1;
    }
    proof {
        let sk = s@.skip(a as int);
        assert(forall|j: int| b - a <= j < sk.len() ==> is_b64_ws(sk[j]));
        lemma_rtrim_prefix(sk, b - a);
        assert(sk.subrange(0, b - a) =~= s@.subrange(a as int, b as int));
    }
    s.substring_char(a, b)
}

/// Decode a base64 string to binary data. A data-URL prefix up to the
/// last comma is stripped, as is surrounding ASCII whitespace.
pub fn decode(encoded: &str) -> (r: Result<Vec<u8>, AppError>)
    ensures
        match r {
            Ok(v) => decode_spec(payload_of(encoded@)) == Some(v@),
            Err(e) => decode_spec(payload_of(encoded@)) is None && e is InvalidRequest,
        },
{
    let len: usize = encoded.unicode_len();
    let body: &str = match rfind_char(encoded, ',') {
        Some(ci) => {
            let sub = encoded.substring_char(ci + 1, len);
            proof {
                lemma_after_last_comma_at(encoded@, ci as int);
                assert(sub@ =~= after_last_comma(encoded@));
            }
            sub
        },
        None => {
            proof {
                lemma_after_last_comma_none(encoded@);
            }
            encoded
        },
    };
    let t: &str = trim_ascii(body);
    let ghost payload = payload_of(encoded@);
    proof {
        assert(t@ == payload);
    }
    let m: usize = t.unicode_len();
    if m == 0 {
        let empty: Vec<u8> = Vec::new();
        proof {
            assert(empty@ =~= Seq::<u8>::empty());
        }
        return Ok(empty);
    }
    if m % 4 != 0 {
        proof {
            assert(decode_spec(payload) is None);
        }
        return Err(AppError::InvalidRequest(String::from_str("invalid base64 data")));
    }
    let mut out: Vec<u8> = Vec::new();
    let mut i: usize = 0;
    proof {
        assert(t@.skip(0) =~= t@);
        assert(out@ + decode_spec(t@).unwrap() =~= decode_spec(t@).unwrap());
    }
    while i + 4 < m
        invariant
            i % 4 == 0,
            i + 4 <= m,
            m % 4 == 0,
            m == t@.len(),
            t@ == payload,
            payload == payload_of(encoded@),
            decode_spec(payload) is Some <==> decode_spec(t@.skip(i as int)) is Some,
            decode_spec(t@.skip(i as int)) is Some ==> decode_spec(payload) == Some(
                out@ + decode_spec(t@.skip(i as int)).unwrap(),
            ),
        decreases m - i,
    {
        let ghost rest = t@.skip(i as int);
        let c0 = t.get_char(i);
        let c1 = t.get_char(i + 1);
        let c2 = t.get_char(i + 2);
        let c3 = t.get_char(i + 3);
        proof {
            assert(rest.len() > 4 && rest.len() % 4 == 0) by {
                assert(rest.len() == m - i);
            }
            assert(rest[0] == c0 && rest[1] == c1 && rest[2] == c2 && rest[3] == c3);
            assert(rest.skip(4) =~= t@.skip(i + 4));
        }
        let v0 = b64_val_exec(c0);
        let v1 = b64_val_exec(c1);
        let v2 = b64_val_exec(c2);
        let v3 = b64_val_exec(c3);
        match (v0, v1, v2, v3) {
            (Some(v0), Some(v1), Some(v2), Some(v3)) => {
                out.push((v0 << 2) | (v1 >> 4));
                out.push(((v1 & 15) << 4) | (v2 >> 2));
                out.push(((v2 & 3) << 6) | v3);
                proof {
                    assert(dec_full_group(c0, c1, c2, c3) == Some(dec3(v0, v1, v2, v3)));
                    if decode_spec(t@.skip(i + 4)) is Some {
                        assert(out@ + decode_spec(t@.skip(i + 4)).unwrap() =~= out@.subrange(
                            0,
                            out@.len() - 3,
                        ) + decode_spec(rest).unwrap());
                    }
                }
            },
            _ => {
                proof {
                    assert(dec_full_group(c0, c1, c2, c3) is None);
                    assert(decode_spec(rest) is None);
                    assert(decode_spec(payload_of(encoded@)) is None);
                }
                return Err(AppError::InvalidRequest(String::from_str("invalid base64 data")));
            },
        }
        i = i + 4;
    }
    // Final quartet: padding is admitted here.
    let ghost rest = t@.skip(i as int);
    proof {
        assert(i + 4 == m);
        assert(rest.len() == 4);
        assert(decode_spec(rest) == dec_last_group(rest[0], rest[1], rest[2], rest[3]));
    }
    let c0 = t.get_char(i);
    let c1 = t.get_char(i + 1);
    let c2 = t.get_char(i + 2);
    let c3 = t.get_char(i + 3);
    let v0 = match b64_val_exec(c0) {
        Some(v) => v,
        None => {
            return Err(AppError::InvalidRequest(String::from_str("invalid base64 data")));
        },
    };
    let v1 = match b64_val_exec(c1) {
        Some(v) => v,
        None => {
            return Err(AppError::InvalidRequest(String::from_str("invalid base64 data")));
        },
    };
    if c2 == '=' && c3 == '=' {
        if v1 & 15 == 0 {
            out.push((v0 << 2) | (v1 >> 4));
            proof {
                assert(decode_spec(rest) == Some(seq![((v0 << 2) | (v1 >> 4)) as u8]));
                assert(out@ =~= out@.subrange(0, out@.len() - 1) + decode_spec(rest).unwrap());
            }
            return Ok(out);
        } else {
            return Err(AppError::InvalidRequest(String::from_str("invalid base64 data")));
        }
    }
    if c3 == '=' {
        let v2 = match b64_val_exec(c2) {
            Some(v) => v,
            None => {
                return Err(AppError::InvalidRequest(String::from_str("invalid base64 data")));
            },
        };
        if v2 & 3 == 0 {
            out.push((v0 << 2) | (v1 >> 4));
            out.push(((v1 & 15) << 4) | (v2 >> 2));
            proof {
                assert(out@ =~= out@.subrange(0, out@.len() - 2) + decode_spec(rest).unwrap());
            }
            return Ok(out);
        } else {
            return Err(AppError::InvalidRequest(String::from_str("invalid base64 data")));
        }
    }
    let v2 = match b64_val_exec(c2) {
        Some(v) => v,
        None => {
            return Err(AppError::InvalidRequest(String::from_str("invalid base64 data")));
        },
    };
    let v3 = match b64_val_exec(c3) {
        Some(v) => v,
        None => {
            return Err(AppError::InvalidRequest(String::from_str("invalid base64 data")));
        },
    };
    out.push((v0 << 2) | (v1 >> 4));
    out.push(((v1 & 15) << 4) | (v2 >> 2));
    out.push(((v2 & 3) << 6) | v3);
    proof {
        assert(out@ =~= out@.subrange(0, out@.len() - 3) + decode_spec(rest).unwrap());
    }
    Ok(out)
}

/// Check whether a string (or data URL) holds valid base64.
pub fn is_valid(data: &str) -> (r: bool)
    ensures
        r == (decode_spec(payload_of(data@)) is Some),
{
    match decode(data) {
        Ok(_) => true,
        Err(_) => false,
    }
}

/// First position of a character, as a recursive function.
pub open spec fn first_index_of(s: Seq<char>, c: char) -> int
    decreases s.len(),
{
    if s.len() == 0 {
        -1
    } else if s[0] == c {
        0
    } else {
        let r = first_index_of(s.skip(1), c);
        if r == -1 {
            -1
        } else {
            r + 1
        }
    }
}

proof fn lemma_first_index_of_at(s: Seq<char>, i: int, c: char)
    requires
        0 <= i < s.len(),
        s[i] == c,
        forall|j: int| 0 <= j < i ==> s[j] != c,
    ensures
        first_index_of(s, c) == i,
    decreases i,
{
    if i > 0 {
        lemma_first_index_of_at(s.skip(1), i - 1, c);
    }
}

proof fn lemma_first_index_of_none(s: Seq<char>, c: char)
    requires
        forall|j: int| 0 <= j < s.len() ==> s[j] != c,
    ensures
        first_index_of(s, c) == -1,
    decreases s.len(),
{
    if s.len() > 0 {
        lemma_first_index_of_none(s.skip(1), c);
    }
}

/// Image format named by a data-URL prefix, if the string carries one.
pub open spec fn spec_format_of_data_url(s: Seq<char>) -> Option<Seq<char>> {
    if seq_starts_with(s, "data:image/"@) && first_index_of(s, ';') >= 0 {
        Some(s.subrange(11, first_index_of(s, ';')))
    } else {
        None
    }
}

/// Get the image format out of a base64 data-URL prefix.
pub fn get_format_from_data_url(data_url: &str) -> (r: Option<&str>)
    ensures
        match r {
            Some(f) => spec_format_of_data_url(data_url@) == Some(f@),
            None => spec_format_of_data_url(data_url@) is None,
        },
{
    proof {
        reveal_strlit("data:image/");
    }
    if !starts_with_str(data_url, "data:image/") {
        return None;
    }
    let len: usize = data_url.unicode_len();
    match find_char(data_url, ';') {
        Some(end) => {
            proof {
                lemma_first_index_of_at(data_url@, end as int, ';');
                let lit = "data:image/"@;
                assert(lit.len() == 11);
                assert(lit[0] == 'd' && lit[1] == 'a' && lit[2] == 't' && lit[3] == 'a' && lit[4]
                    == ':' && lit[5] == 'i' && lit[6] == 'm' && lit[7] == 'a' && lit[8] == 'g'
                    && lit[9] == 'e' && lit[10] == '/');
                assert(forall|j: int| 0 <= j < 11 ==> data_url@[j] == lit[j]);
                assert(data_url@[end as int] == ';');
                assert(end >= 11);
            }
            Some(data_url.substring_char(11, end))
        },
        None => {
            proof {
                lemma_first_index_of_none(data_url@, ';');
            }
            None
        },
    }
}

/// Build a data URL around binary image data.
pub fn create_data_url(data: &[u8], format: &str) -> (r: String)
    ensures
        r@ == "data:image/"@ + format@ + ";base64,"@ + encode_spec(data@),
{
    let encoded = encode(data);
    let mut out = String::from_str("data:image/");
    out.append(format);
    out.append(";base64,");
    out.append(encoded.as_str());
    out
}

/// A value below 64 maps into the alphabet and back to itself, and its
/// character is neither padding, a comma, nor whitespace.
proof fn lemma_b64_char_inverse(v: u8)
    requires
        v < 64,
    ensures
        b64_val(b64_char(v)) == Some(v),
        b64_char(v) != '=',
        b64_char(v) != ',',
        !is_b64_ws(b64_char(v)),
{
}

/// Encoded output comes in whole quartets.
proof fn lemma_encode_len(s: Seq<u8>)
    ensures
        encode_spec(s).len() % 4 == 0,
        s.len() > 0 ==> encode_spec(s).len() >= 4,
    decreases s.len(),
{
    if s.len() > 2 {
        lemma_encode_len(s.skip(3));
    }
}

/// Decoding inverts encoding.
pub proof fn lemma_encode_round_trip(bytes: Seq<u8>)
    ensures
        decode_spec(encode_spec(bytes)) == Some(bytes),
    decreases bytes.len(),
{
    let e = encode_spec(bytes);
    if bytes.len() == 0 {
        assert(e.len() == 0);
        assert(decode_spec(e) == Some(bytes)) by {
            assert(Seq::<u8>::empty() =~= bytes);
        }
    } else if bytes.len() == 1 {
        let b0 = bytes[0];
        assert((b0 >> 2) < 64 && ((b0 & 3) << 4) < 64) by (bit_vector);
        lemma_b64_char_inverse(b0 >> 2);
        lemma_b64_char_inverse((b0 & 3) << 4);
        let v0 = b0 >> 2;
        let v1 = (b0 & 3) << 4;
        assert(v1 & 15 == 0 && ((v0 << 2) | (v1 >> 4)) == b0) by (bit_vector)
            requires
                v0 == b0 >> 2 && v1 == (b0 & 3) << 4,
        ;
        assert(decode_spec(e) == Some(seq![b0]));
        assert(seq![b0] =~= bytes);
    } else if bytes.len() == 2 {
        let b0 = bytes[0];
        let b1 = bytes[1];
        let v0 = b0 >> 2;
        let v1 = ((b0 & 3) << 4) | (b1 >> 4);
        let v2 = (b1 & 15) << 2;
        assert(v0 < 64 && v1 < 64 && v2 < 64) by (bit_vector)
            requires
                v0 == b0 >> 2 && v1 == ((b0 & 3) << 4) | (b1 >> 4) && v2 == (b1 & 15) << 2,
        ;
        lemma_b64_char_inverse(v0);
        lemma_b64_char_inverse(v1);
        lemma_b64_char_inverse(v2);
        assert(v2 & 3 == 0 && ((v0 << 2) | (v1 >> 4)) == b0 && (((v1 & 15) << 4) | (v2 >> 2))
            == b1) by (bit_vector)
            requires
                v0 == b0 >> 2 && v1 == ((b0 & 3) << 4) | (b1 >> 4) && v2 == (b1 & 15) << 2,
        ;
        assert(decode_spec(e) == Some(seq![b0, b1]));
        assert(seq![b0, b1] =~= bytes);
    } else {
        let b0 = bytes[0];
        let b1 = bytes[1];
        let b2 = bytes[2];
        let v0 = b0 >> 2;
        let v1 = ((b0 & 3) << 4) | (b1 >> 4);
        let v2 = ((b1 & 15) << 2) | (b2 >> 6);
        let v3 = b2 & 63;
        assert(v0 < 64 && v1 < 64 && v2 < 64 && v3 < 64) by (bit_vector)
            requires
                v0 == b0 >> 2 && v1 == ((b0 & 3) << 4) | (b1 >> 4) && v2 == ((b1 & 15) << 2) | (b2
                    >> 6) && v3 == b2 & 63,
        ;
        lemma_b64_char_inverse(v0);
        lemma_b64_char_inverse(v1);
        lemma_b64_char_inverse(v2);
        lemma_b64_char_inverse(v3);
        assert(((v0 << 2) | (v1 >> 4)) == b0 && (((v1 & 15) << 4) | (v2 >> 2)) == b1 && (((v2 & 3)
            << 6) | v3) == b2) by (bit_vector)
            requires
                v0 == b0 >> 2 && v1 == ((b0 & 3) << 4) | (b1 >> 4) && v2 == ((b1 & 15) << 2) | (b2
                    >> 6) && v3 == b2 & 63,
        ;
        let grp = enc_group(b0, b1, b2);
        let rest = bytes.skip(3);
        assert(e == grp + encode_spec(rest));
        lemma_encode_round_trip(rest);
        lemma_encode_len(rest);
        assert(e[0] == grp[0] && e[1] == grp[1] && e[2] == grp[2] && e[3] == grp[3]);
        if rest.len() == 0 {
            assert(e.len() == 4);
            assert(dec_last_group(e[0], e[1], e[2], e[3]) == Some(dec3(v0, v1, v2, v3)));
            assert(dec3(v0, v1, v2, v3) =~= bytes);
        } else {
            assert(encode_spec(rest).len() >= 4 && encode_spec(rest).len() % 4 == 0);
            assert(e.len() > 4 && e.len() % 4 == 0);
            assert(dec_full_group(e[0], e[1], e[2], e[3]) == Some(dec3(v0, v1, v2, v3)));
            assert(e.skip(4) =~= encode_spec(rest));
            assert(dec3(v0, v1, v2, v3) + rest =~= bytes);
        }
    }
}

} // verus!
