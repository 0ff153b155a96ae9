//! Primitive wire codec: little-endian 32-bit integers, length-prefixed
//! strings and byte buffers, and the terminator scan that the legacy page
//! variant frames its image payload with.
use vstd::prelude::*;

use vstd::slice::{slice_index_get, slice_subrange, slice_to_vec};

use crate::PackError;

verus! {

/// Holds exactly when `b` is valid UTF-8; the result of
/// `core::str::from_utf8` succeeding on `b`.
pub uninterp spec fn is_utf8(b: Seq<u8>) -> bool;

/// Relies on `core::str::from_utf8`: it succeeds exactly on valid UTF-8
/// input, a property of the bytes alone.
#[verifier::external_body]
pub(crate) fn check_utf8(b: &[u8]) -> (r: bool)
    ensures
        r == is_utf8(b@),
{
    core::str::from_utf8(b).is_ok()
}

/// The little-endian bytes of an unsigned 32-bit integer.
pub open spec fn u32_le(x: u32) -> Seq<u8> {
    seq![
        (x & 0xff) as u8,
        ((x >> 8) & 0xff) as u8,
        ((x >> 16) & 0xff) as u8,
        ((x >> 24) & 0xff) as u8,
    ]
}

/// The unsigned 32-bit integer four little-endian bytes denote.
pub open spec fn u32_from(s: Seq<u8>) -> u32
    recommends
        s.len() == 4,
{
    (s[0] as u32) | (s[1] as u32) << 8 | (s[2] as u32) << 16 | (s[3] as u32) << 24
}

/// The two conversions invert each other.
pub proof fn lemma_u32_le_from(x: u32)
    ensures
        u32_le(x).len() == 4,
        u32_from(u32_le(x)) == x,
{
    let b0 = (x & 0xff) as u8;
    let b1 = ((x >> 8) & 0xff) as u8;
    let b2 = ((x >> 16) & 0xff) as u8;
    let b3 = ((x >> 24) & 0xff) as u8;
    assert((((x & 0xff) as u8) as u32) | ((((x >> 8) & 0xff) as u8) as u32) << 8 | ((((x >> 16)
        & 0xff) as u8) as u32) << 16 | ((((x >> 24) & 0xff) as u8) as u32) << 24 == x)
        by (bit_vector);
    assert(u32_from(u32_le(x)) == (b0 as u32) | (b1 as u32) << 8 | (b2 as u32) << 16 | (b3
        as u32) << 24);
}

/// The little-endian bytes of a signed 32-bit integer (its two's-complement
/// unsigned reinterpretation).
pub open spec fn i32_le(x: i32) -> Seq<u8> {
    u32_le(x as u32)
}

/// A payload framed by its 32-bit little-endian length.
pub open spec fn len_prefixed(b: Seq<u8>) -> Seq<u8> {
    u32_le(b.len() as u32) + b
}

/// The four bytes that terminate a legacy image payload: the little-endian
/// encoding of `0xDEADBEEF`.
pub open spec fn terminator_seq() -> Seq<u8> {
    seq![0xEFu8, 0xBEu8, 0xADu8, 0xDEu8]
}

/// Reads an unsigned 32-bit little-endian integer at `pos`.
pub open spec fn parse_u32(b: Seq<u8>, pos: int) -> Result<(u32, int), PackError> {
    if 0 <= pos && pos + 4 <= b.len() {
        Ok((u32_from(b.subrange(pos, pos + 4)), pos + 4))
    } else {
        Err(PackError::Truncated)
    }
}

/// Reads a signed 32-bit little-endian integer at `pos`.
pub open spec fn parse_i32(b: Seq<u8>, pos: int) -> Result<(i32, int), PackError> {
    match parse_u32(b, pos) {
        Ok((x, p)) => Ok((x as i32, p)),
        Err(e) => Err(e),
    }
}

/// Reads a length-prefixed byte buffer at `pos`. The length prefix must be
/// satisfiable by the remaining stream.
pub open spec fn parse_buffer(b: Seq<u8>, pos: int) -> Result<(Seq<u8>, int), PackError> {
    match parse_u32(b, pos) {
        Ok((len, p)) => if p + len <= b.len() {
            Ok((b.subrange(p, p + len), p + len))
        } else {
            Err(PackError::MalformedLength)
        },
        Err(e) => Err(e),
    }
}

/// Reads a length-prefixed string at `pos`; the payload must additionally be
/// valid UTF-8.
pub open spec fn parse_string(b: Seq<u8>, pos: int) -> Result<(Seq<u8>, int), PackError> {
    match parse_buffer(b, pos) {
        Ok((payload, p)) => if is_utf8(payload) {
            Ok((payload, p))
        } else {
            Err(PackError::MalformedLength)
        },
        Err(e) => Err(e),
    }
}

/// The first index `>= j` at which `pat` occurs in `b`, if any.
pub open spec fn scan_end(b: Seq<u8>, pat: Seq<u8>, j: int) -> Option<int>
    decreases b.len() - j + 1,
{
    if j < 0 || j + pat.len() > b.len() {
        None
    } else if b.subrange(j, j + pat.len()) == pat {
        Some(j)
    } else {
        scan_end(b, pat, j + 1)
    }
}

/// Scans from `pos` for the first occurrence of `pat`, yielding the bytes
/// that precede it and the position just past it.
pub open spec fn parse_until(b: Seq<u8>, pos: int, pat: Seq<u8>) -> Result<
    (Seq<u8>, int),
    PackError,
> {
    match scan_end(b, pat, pos) {
        Some(j) => Ok((b.subrange(pos, j), j + pat.len())),
        None => Err(PackError::Truncated),
    }
}

/// `pat` occurs somewhere inside `b`.
pub open spec fn contains_pattern(b: Seq<u8>, pat: Seq<u8>) -> bool {
    exists|i: int|
        0 <= i && i + pat.len() <= b.len() && #[trigger] b.subrange(i, i + pat.len()) == pat
}

/// Reading four little-endian bytes recovers the integer they encode.
pub proof fn lemma_parse_u32_exact(b: Seq<u8>, pos: int, x: u32)
    requires
        0 <= pos,
        pos + 4 <= b.len(),
        b.subrange(pos, pos + 4) == u32_le(x),
    ensures
        parse_u32(b, pos) == Ok::<_, PackError>((x, pos + 4)),
{
    lemma_u32_le_from(x);
}

/// Reading four little-endian bytes recovers the signed integer they encode.
pub proof fn lemma_parse_i32_exact(b: Seq<u8>, pos: int, x: i32)
    requires
        0 <= pos,
        pos + 4 <= b.len(),
        b.subrange(pos, pos + 4) == i32_le(x),
    ensures
        parse_i32(b, pos) == Ok::<_, PackError>((x, pos + 4)),
{
    lemma_parse_u32_exact(b, pos, x as u32);
    assert((x as u32) as i32 == x) by (bit_vector);
}

/// Reading a length-prefixed buffer recovers the payload it frames.
pub proof fn lemma_parse_buffer_exact(b: Seq<u8>, pos: int, payload: Seq<u8>)
    requires
        0 <= pos,
        payload.len() <= u32::MAX,
        pos + 4 + payload.len() <= b.len(),
        b.subrange(pos, pos + 4 + payload.len()) == len_prefixed(payload),
    ensures
        parse_buffer(b, pos) == Ok::<_, PackError>((payload, pos + 4 + payload.len())),
{
    let framed = len_prefixed(payload);
    let len32 = payload.len() as u32;
    assert(b.subrange(pos, pos + 4) =~= framed.subrange(0, 4));
    assert(framed.subrange(0, 4) =~= u32_le(len32));
    lemma_parse_u32_exact(b, pos, len32);
    assert(b.subrange(pos + 4, pos + 4 + payload.len()) =~= framed.subrange(
        4,
        4 + payload.len() as int,
    ));
    assert(framed.subrange(4, 4 + payload.len() as int) =~= payload);
}

/// Reading a length-prefixed string recovers the UTF-8 payload it frames.
pub proof fn lemma_parse_string_exact(b: Seq<u8>, pos: int, payload: Seq<u8>)
    requires
        0 <= pos,
        payload.len() <= u32::MAX,
        pos + 4 + payload.len() <= b.len(),
        b.subrange(pos, pos + 4 + payload.len()) == len_prefixed(payload),
        is_utf8(payload),
    ensures
        parse_string(b, pos) == Ok::<_, PackError>((payload, pos + 4 + payload.len())),
{
    lemma_parse_buffer_exact(b, pos, payload);
}

#[verifier::rlimit(100)]
#[verifier::spinoff_prover]
proof fn lemma_scan_end_terminated(b: Seq<u8>, pos: int, payload: Seq<u8>, j: int)
    requires
        0 <= pos <= j <= pos + payload.len(),
        pos + payload.len() + 4 <= b.len(),
        b.subrange(pos, pos + payload.len() + 4) == payload + terminator_seq(),
        !contains_pattern(payload, terminator_seq()),
    ensures
        scan_end(b, terminator_seq(), j) == Some(pos + payload.len()),
    decreases pos + payload.len() - j,
{
    let e = pos + payload.len();
    let stream = payload + terminator_seq();
    assert forall|k: int| pos <= k < e + 4 implies #[trigger] b[k] == stream[k - pos] by {
        assert(b[k] == b.subrange(pos, e + 4)[k - pos]);
    }
    if j == e {
        assert(b.subrange(e, e + 4) =~= terminator_seq());
    } else {
        let window = b.subrange(j, j + 4);
        if j + 4 <= e {
            assert(window =~= payload.subrange(j - pos, j - pos + 4));
            assert(window != terminator_seq());
        } else {
            // The window straddles the payload's end: the byte of the window
            // that sits at the payload's end is the terminator's first byte,
            // but a match would put one of the terminator's later bytes
            // there, and those all differ from the first.
            let k = e - j;
            assert(window[k] == b[e]);
            assert(b[e] == stream[e - pos]);
            assert(stream[e - pos] == terminator_seq()[0]);
            if window == terminator_seq() {
                assert(window[k] == terminator_seq()[k]);
                assert(false);
            }
        }
        lemma_scan_end_terminated(b, pos, payload, j + 1);
    }
}

/// Scanning a stream that holds a terminator-free payload followed by the
/// terminator recovers exactly that payload.
pub proof fn lemma_parse_until_exact(b: Seq<u8>, pos: int, payload: Seq<u8>)
    requires
        0 <= pos,
        pos + payload.len() + 4 <= b.len(),
        b.subrange(pos, pos + payload.len() + 4) == payload + terminator_seq(),
        !contains_pattern(payload, terminator_seq()),
    ensures
        parse_until(b, pos, terminator_seq()) == Ok::<_, PackError>((
            payload,
            pos + payload.len() + 4,
        )),
{
    lemma_scan_end_terminated(b, pos, payload, pos);
    let e = pos + payload.len();
    assert(b.subrange(pos, e) =~= payload);
}

/// The terminator bytes as a buffer.
pub(crate) fn terminator() -> (r: Vec<u8>)
    ensures
        r@ == terminator_seq(),
{
    let mut v: Vec<u8> = Vec::new();
    v.push(0xEF);
    v.push(0xBE);
    v.push(0xAD);
    v.push(0xDE);
    proof {
        assert(v@ =~= terminator_seq());
    }
    v
}

/// Appends all bytes of `b` to `out`.
pub(crate) fn push_bytes(out: &mut Vec<u8>, b: &[u8])
    ensures
        final(out)@ == old(out)@ + b@,
{
    let n = b.len();
    let mut i: usize = 0;
    while i < n
        invariant
            i <= n,
            n == b@.len(),
            out@ == old(out)@ + b@.subrange(0, i as int),
        decreases n - i,
    {
        out.push(*slice_index_get(b, i));
        proof {
            assert(out@ =~= old(out)@ + b@.subrange(0, i + 1));
        }
        i = i + 1;
    }
    proof {
        assert(out@ =~= old(out)@ + b@);
    }
}

/// Writes `x` as four little-endian bytes.
pub(crate) fn write_u32(out: &mut Vec<u8>, x: u32)
    ensures
        final(out)@ == old(out)@ + u32_le(x),
{
    proof {
        assert(x & 0xff < 256 && (x >> 8) & 0xff < 256 && (x >> 16) & 0xff < 256 && (x >> 24)
            & 0xff < 256) by (bit_vector);
    }
    out.push((x & 0xff) as u8);
    out.push(((x >> 8) & 0xff) as u8);
    out.push(((x >> 16) & 0xff) as u8);
    out.push(((x >> 24) & 0xff) as u8);
    proof {
        assert(out@ =~= old(out)@ + u32_le(x));
    }
}

/// Writes `x` as four little-endian bytes.
pub(crate) fn write_i32(out: &mut Vec<u8>, x: i32)
    ensures
        final(out)@ == old(out)@ + i32_le(x),
{
    write_u32(out, x as u32);
}

/// Writes `b` framed by its 32-bit length.
pub(crate) fn write_buffer(out: &mut Vec<u8>, b: &[u8])
    requires
        b@.len() <= u32::MAX,
    ensures
        final(out)@ == old(out)@ + len_prefixed(b@),
{
    write_u32(out, b.len() as u32);
    push_bytes(out, b);
}

/// Reads an unsigned 32-bit little-endian integer.
pub(crate) fn read_u32(bytes: &[u8], pos: usize) -> (r: Result<(u32, usize), PackError>)
    ensures
        match r {
            Ok((x, p)) => parse_u32(bytes@, pos as int) == Ok::<_, PackError>((x, p as int)),
            Err(e) => {
                &&& parse_u32(bytes@, pos as int) == Err::<(u32, int), _>(e)
                &&& e == PackError::Truncated
            },
        },
{
    if bytes.len() >= 4 && pos <= bytes.len() - 4 {
        let b0 = *slice_index_get(bytes, pos);
        let b1 = *slice_index_get(bytes, pos + 1);
        let b2 = *slice_index_get(bytes, pos + 2);
        let b3 = *slice_index_get(bytes, pos + 3);
        let x = (b0 as u32) | (b1 as u32) << 8 | (b2 as u32) << 16 | (b3 as u32) << 24;
        proof {
            let s = bytes@.subrange(pos as int, pos as int + 4);
            assert(s[0] == b0 && s[1] == b1 && s[2] == b2 && s[3] == b3);
        }
        Ok((x, pos + 4))
    } else {
        Err(PackError::Truncated)
    }
}

/// Reads a signed 32-bit little-endian integer.
pub(crate) fn read_i32(bytes: &[u8], pos: usize) -> (r: Result<(i32, usize), PackError>)
    ensures
        match r {
            Ok((x, p)) => parse_i32(bytes@, pos as int) == Ok::<_, PackError>((x, p as int)),
            Err(e) => {
                &&& parse_i32(bytes@, pos as int) == Err::<(i32, int), _>(e)
                &&& e == PackError::Truncated
            },
        },
{
    match read_u32(bytes, pos) {
        Ok((x, p)) => Ok((x as i32, p)),
        Err(e) => Err(e),
    }
}

/// Reads a length-prefixed byte buffer.
pub(crate) fn read_buffer(bytes: &[u8], pos: usize) -> (r: Result<(Vec<u8>, usize), PackError>)
    ensures
        match r {
            Ok((v, p)) => {
                &&& parse_buffer(bytes@, pos as int) == Ok::<_, PackError>((v@, p as int))
                &&& p as int <= bytes@.len()
            },
            Err(e) => {
                &&& parse_buffer(bytes@, pos as int) == Err::<(Seq<u8>, int), _>(e)
                &&& (e == PackError::Truncated || e == PackError::MalformedLength)
            },
        },
{
    match read_u32(bytes, pos) {
        Ok((len32, p)) => {
            let len = len32 as usize;
            if len <= bytes.len() - p {
                let v = slice_to_vec(slice_subrange(bytes, p, p + len));
                Ok((v, p + len))
            } else {
                Err(PackError::MalformedLength)
            }
        },
        Err(e) => Err(e),
    }
}

/// Reads a length-prefixed string, rejecting payloads that are not valid
/// UTF-8.
pub(crate) fn read_string(bytes: &[u8], pos: usize) -> (r: Result<(Vec<u8>, usize), PackError>)
    ensures
        match r {
            Ok((v, p)) => {
                &&& parse_string(bytes@, pos as int) == Ok::<_, PackError>((v@, p as int))
                &&& p as int <= bytes@.len()
            },
            Err(e) => {
                &&& parse_string(bytes@, pos as int) == Err::<(Seq<u8>, int), _>(e)
                &&& (e == PackError::Truncated || e == PackError::MalformedLength)
            },
        },
{
    match read_buffer(bytes, pos) {
        Ok((v, p)) => {
            if check_utf8(v.as_slice()) {
                Ok((v, p))
            } else {
                Err(PackError::MalformedLength)
            }
        },
        Err(e) => Err(e),
    }
}

/// Compares the window of `bytes` starting at `j` with `pat`.
pub(crate) fn match_at(bytes: &[u8], j: usize, pat: &[u8]) -> (r: bool)
    requires
        j + pat@.len() <= bytes@.len(),
    ensures
        r == (bytes@.subrange(j as int, j as int + pat@.len()) == pat@),
{
    let total = bytes.len();
    let m = pat.len();
    let mut k: usize = 0;
    while k < m
        invariant
            k <= m,
            m == pat@.len(),
            total == bytes@.len(),
            j + m <= bytes@.len(),
            forall|i: int| 0 <= i < k ==> bytes@[j + i] == pat@[i],
        decreases m - k,
    {
        if *slice_index_get(bytes, j + k) != *slice_index_get(pat, k) {
            proof {
                assert(bytes@.subrange(j as int, j as int + pat@.len())[k as int] != pat@[k as int]);
            }
            return false;
        }
        k = k + 1;
    }
    proof {
        assert(bytes@.subrange(j as int, j as int + pat@.len()) =~= pat@);
    }
    true
}

/// Reads one byte at a time until the bytes read end with `pat`, returning
/// everything that preceded the pattern and the position just past it. The
/// legacy page variant frames its image payload this way; a payload that
/// happens to contain the pattern is cut short, an accepted limitation of
/// that format.
pub fn read_until_pattern(bytes: &[u8], pos: usize, pat: &[u8]) -> (r: Result<
    (Vec<u8>, usize),
    PackError,
>)
    requires
        pos <= bytes@.len(),
    ensures
        match r {
            Ok((v, p)) => {
                &&& parse_until(bytes@, pos as int, pat@) == Ok::<_, PackError>((v@, p as int))
                &&& p as int <= bytes@.len()
            },
            Err(e) => {
                &&& parse_until(bytes@, pos as int, pat@) == Err::<(Seq<u8>, int), _>(e)
                &&& e == PackError::Truncated
            },
        },
{
    let n = bytes.len();
    let m = pat.len();
    let mut j = pos;
    loop
        invariant
            pos <= j <= n,
            n == bytes@.len(),
            m == pat@.len(),
            scan_end(bytes@, pat@, pos as int) == scan_end(bytes@, pat@, j as int),
        decreases n - j,
    {
        if m > n || j > n - m {
            return Err(PackError::Truncated);
        }
        if match_at(bytes, j, pat) {
            let payload = slice_to_vec(slice_subrange(bytes, pos, j));
            return Ok((payload, j + m));
        }
        proof {
            if pat@.len() == 0 {
                assert(bytes@.subrange(j as int, j as int) =~= pat@);
            }
            assert(scan_end(bytes@, pat@, j as int) == scan_end(bytes@, pat@, j as int + 1));
        }
        j = j + 1;
    }
}

} // verus!
