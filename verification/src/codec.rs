//! The canonical byte format for stored values.
//!
//! Queries, page results and entries are framed by the library itself:
//! fixed-width big-endian integers, length-prefixed byte strings, and
//! tagged options. Encoding is total; decoding checks every frame and
//! returns `None` on any malformed input; decoding an encoding gives the
//! original value back.

use vstd::prelude::*;
use vstd::slice::{slice_index_get, slice_subrange, slice_to_vec};
use vstd::utf8::{decode_utf8, encode_utf8, valid_utf8};

verus! {

// ---------------------------------------------------------------------
// Unsigned integers, big endian.
// ---------------------------------------------------------------------
/// The two big-endian bytes of `n`.
pub open spec fn spec_enc_u16(n: u16) -> Seq<u8> {
    seq![(n >> 8) as u8, n as u8]
}

/// The four big-endian bytes of `n`.
pub open spec fn spec_enc_u32(n: u32) -> Seq<u8> {
    seq![(n >> 24) as u8, (n >> 16) as u8, (n >> 8) as u8, n as u8]
}

/// The eight big-endian bytes of `n`.
pub open spec fn spec_enc_u64(n: u64) -> Seq<u8> {
    seq![
        (n >> 56) as u8,
        (n >> 48) as u8,
        (n >> 40) as u8,
        (n >> 32) as u8,
        (n >> 24) as u8,
        (n >> 16) as u8,
        (n >> 8) as u8,
        n as u8,
    ]
}

/// Read one byte.
pub open spec fn spec_dec_u8(b: Seq<u8>) -> Option<(u8, Seq<u8>)> {
    if b.len() >= 1 {
        Some((b[0], b.skip(1)))
    } else {
        None
    }
}

/// Read two big-endian bytes.
pub open spec fn spec_dec_u16(b: Seq<u8>) -> Option<(u16, Seq<u8>)> {
    if b.len() >= 2 {
        Some((((b[0] as u16) << 8) | (b[1] as u16), b.skip(2)))
    } else {
        None
    }
}

/// Read four big-endian bytes.
pub open spec fn spec_dec_u32(b: Seq<u8>) -> Option<(u32, Seq<u8>)> {
    if b.len() >= 4 {
        Some(
            (
                ((b[0] as u32) << 24) | ((b[1] as u32) << 16) | ((b[2] as u32) << 8) | (
                b[3] as u32),
                b.skip(4),
            ),
        )
    } else {
        None
    }
}

/// Read eight big-endian bytes.
pub open spec fn spec_dec_u64(b: Seq<u8>) -> Option<(u64, Seq<u8>)> {
    if b.len() >= 8 {
        Some(
            (
                ((b[0] as u64) << 56) | ((b[1] as u64) << 48) | ((b[2] as u64) << 40) | ((
                b[3] as u64) << 32) | ((b[4] as u64) << 24) | ((b[5] as u64) << 16) | ((
                b[6] as u64) << 8) | (b[7] as u64),
                b.skip(8),
            ),
        )
    } else {
        None
    }
}

/// Reading back the two big-endian bytes of `n` gives `n` and the rest.
pub proof fn lemma_dec_enc_u16(n: u16, rest: Seq<u8>)
    ensures
        spec_dec_u16(spec_enc_u16(n) + rest) == Some((n, rest)),
{
    let b = spec_enc_u16(n) + rest;
    assert((((n >> 8) as u8 as u16) << 8) | (n as u8 as u16) == n) by (bit_vector);
    assert(b.skip(2) =~= rest);
}

/// Reading back the four big-endian bytes of `n` gives `n` and the rest.
pub proof fn lemma_dec_enc_u32(n: u32, rest: Seq<u8>)
    ensures
        spec_dec_u32(spec_enc_u32(n) + rest) == Some((n, rest)),
{
    let b = spec_enc_u32(n) + rest;
    assert((((n >> 24) as u8 as u32) << 24) | (((n >> 16) as u8 as u32) << 16) | (((n
        >> 8) as u8 as u32) << 8) | (n as u8 as u32) == n) by (bit_vector);
    assert(b.skip(4) =~= rest);
}

/// Reading back the eight big-endian bytes of `n` gives `n` and the rest.
pub proof fn lemma_dec_enc_u64(n: u64, rest: Seq<u8>)
    ensures
        spec_dec_u64(spec_enc_u64(n) + rest) == Some((n, rest)),
{
    let b = spec_enc_u64(n) + rest;
    assert((((n >> 56) as u8 as u64) << 56) | (((n >> 48) as u8 as u64) << 48) | (((n
        >> 40) as u8 as u64) << 40) | (((n >> 32) as u8 as u64) << 32) | (((n
        >> 24) as u8 as u64) << 24) | (((n >> 16) as u8 as u64) << 16) | (((n
        >> 8) as u8 as u64) << 8) | (n as u8 as u64) == n) by (bit_vector);
    assert(b.skip(8) =~= rest);
}

/// Append one byte.
pub fn enc_u8(out: &mut Vec<u8>, n: u8)
    ensures
        final(out)@ == old(out)@ + seq![n],
{
    out.push(n);
    proof {
        assert(out@ =~= old(out)@ + seq![n]);
    }
}

/// Append the two big-endian bytes of `n`.
pub fn enc_u16(out: &mut Vec<u8>, n: u16)
    ensures
        final(out)@ == old(out)@ + spec_enc_u16(n),
{
    out.push((n >> 8) as u8);
    out.push(n as u8);
    proof {
        assert(out@ =~= old(out)@ + spec_enc_u16(n));
    }
}

/// Append the four big-endian bytes of `n`.
pub fn enc_u32(out: &mut Vec<u8>, n: u32)
    ensures
        final(out)@ == old(out)@ + spec_enc_u32(n),
{
    out.push((n >> 24) as u8);
    out.push((n >> 16) as u8);
    out.push((n >> 8) as u8);
    out.push(n as u8);
    proof {
        assert(out@ =~= old(out)@ + spec_enc_u32(n));
    }
}

/// Append the eight big-endian bytes of `n`.
pub fn enc_u64(out: &mut Vec<u8>, n: u64)
    ensures
        final(out)@ == old(out)@ + spec_enc_u64(n),
{
    out.push((n >> 56) as u8);
    out.push((n >> 48) as u8);
    out.push((n >> 40) as u8);
    out.push((n >> 32) as u8);
    out.push((n >> 24) as u8);
    out.push((n >> 16) as u8);
    out.push((n >> 8) as u8);
    out.push(n as u8);
    proof {
        assert(out@ =~= old(out)@ + spec_enc_u64(n));
    }
}

/// Read one byte at cursor `pos`.
pub fn dec_u8(bytes: &[u8], pos: usize) -> (r: Option<(u8, usize)>)
    requires
        pos <= bytes@.len(),
    ensures
        match r {
            Some((v, p2)) => pos < p2 <= bytes@.len() && spec_dec_u8(bytes@.skip(pos as int))
                == Some((v, bytes@.skip(p2 as int))),
            None => spec_dec_u8(bytes@.skip(pos as int)) is None,
        },
{
    if pos < bytes.len() {
        let v = *slice_index_get(bytes, pos);
        proof {
            assert(bytes@.skip(pos as int)[0] == bytes@[pos as int]);
            assert(bytes@.skip(pos as int).skip(1) =~= bytes@.skip(pos as int + 1));
        }
        Some((v, pos + 1))
    } else {
        None
    }
}

/// Read two big-endian bytes at cursor `pos`.
pub fn dec_u16(bytes: &[u8], pos: usize) -> (r: Option<(u16, usize)>)
    requires
        pos <= bytes@.len(),
    ensures
        match r {
            Some((v, p2)) => pos < p2 <= bytes@.len() && spec_dec_u16(bytes@.skip(pos as int))
                == Some((v, bytes@.skip(p2 as int))),
            None => spec_dec_u16(bytes@.skip(pos as int)) is None,
        },
{
    if bytes.len() - pos >= 2 {
        let b0 = *slice_index_get(bytes, pos);
        let b1 = *slice_index_get(bytes, pos + 1);
        let v = ((b0 as u16) << 8) | (b1 as u16);
        proof {
            let s = bytes@.skip(pos as int);
            assert(s[0] == bytes@[pos as int]);
            assert(s[1] == bytes@[pos as int + 1]);
            assert(s.skip(2) =~= bytes@.skip(pos as int + 2));
        }
        Some((v, pos + 2))
    } else {
        None
    }
}

/// Read four big-endian bytes at cursor `pos`.
pub fn dec_u32(bytes: &[u8], pos: usize) -> (r: Option<(u32, usize)>)
    requires
        pos <= bytes@.len(),
    ensures
        match r {
            Some((v, p2)) => pos < p2 <= bytes@.len() && spec_dec_u32(bytes@.skip(pos as int))
                == Some((v, bytes@.skip(p2 as int))),
            None => spec_dec_u32(bytes@.skip(pos as int)) is None,
        },
{
    if bytes.len() - pos >= 4 {
        let b0 = *slice_index_get(bytes, pos);
        let b1 = *slice_index_get(bytes, pos + 1);
        let b2 = *slice_index_get(bytes, pos + 2);
        let b3 = *slice_index_get(bytes, pos + 3);
        let v = ((b0 as u32) << 24) | ((b1 as u32) << 16) | ((b2 as u32) << 8) | (b3 as u32);
        proof {
            let s = bytes@.skip(pos as int);
            assert(s[0] == bytes@[pos as int]);
            assert(s[1] == bytes@[pos as int + 1]);
            assert(s[2] == bytes@[pos as int + 2]);
            assert(s[3] == bytes@[pos as int + 3]);
            assert(s.skip(4) =~= bytes@.skip(pos as int + 4));
        }
        Some((v, pos + 4))
    } else {
        None
    }
}

/// Read eight big-endian bytes at cursor `pos`.
pub fn dec_u64(bytes: &[u8], pos: usize) -> (r: Option<(u64, usize)>)
    requires
        pos <= bytes@.len(),
    ensures
        match r {
            Some((v, p2)) => pos < p2 <= bytes@.len() && spec_dec_u64(bytes@.skip(pos as int))
                == Some((v, bytes@.skip(p2 as int))),
            None => spec_dec_u64(bytes@.skip(pos as int)) is None,
        },
{
    if bytes.len() - pos >= 8 {
        let b0 = *slice_index_get(bytes, pos);
        let b1 = *slice_index_get(bytes, pos + 1);
        let b2 = *slice_index_get(bytes, pos + 2);
        let b3 = *slice_index_get(bytes, pos + 3);
        let b4 = *slice_index_get(bytes, pos + 4);
        let b5 = *slice_index_get(bytes, pos + 5);
        let b6 = *slice_index_get(bytes, pos + 6);
        let b7 = *slice_index_get(bytes, pos + 7);
        let v = ((b0 as u64) << 56) | ((b1 as u64) << 48) | ((b2 as u64) << 40) | ((b3 as u64)
            << 32) | ((b4 as u64) << 24) | ((b5 as u64) << 16) | ((b6 as u64) << 8) | (b7 as u64);
        proof {
            let s = bytes@.skip(pos as int);
            assert(s[0] == bytes@[pos as int]);
            assert(s[1] == bytes@[pos as int + 1]);
            assert(s[2] == bytes@[pos as int + 2]);
            assert(s[3] == bytes@[pos as int + 3]);
            assert(s[4] == bytes@[pos as int + 4]);
            assert(s[5] == bytes@[pos as int + 5]);
            assert(s[6] == bytes@[pos as int + 6]);
            assert(s[7] == bytes@[pos as int + 7]);
            assert(s.skip(8) =~= bytes@.skip(pos as int + 8));
        }
        Some((v, pos + 8))
    } else {
        None
    }
}

// ---------------------------------------------------------------------
// Length-prefixed byte strings and UTF-8 strings.
// ---------------------------------------------------------------------
/// A byte string: its length as eight big-endian bytes, then the bytes.
pub open spec fn spec_enc_bytes(bs: Seq<u8>) -> Seq<u8> {
    spec_enc_u64(bs.len() as u64) + bs
}

/// Read a length-prefixed byte string.
pub open spec fn spec_dec_bytes(b: Seq<u8>) -> Option<(Seq<u8>, Seq<u8>)> {
    match spec_dec_u64(b) {
        Some((n, r)) => if r.len() >= n {
            Some((r.take(n as int), r.skip(n as int)))
        } else {
            None
        },
        None => None,
    }
}

/// Reading back an encoded byte string gives the bytes and the rest.
pub proof fn lemma_dec_enc_bytes(bs: Seq<u8>, rest: Seq<u8>)
    requires
        bs.len() <= u64::MAX,
    ensures
        spec_dec_bytes(spec_enc_bytes(bs) + rest) == Some((bs, rest)),
{
    assert(spec_enc_bytes(bs) + rest =~= spec_enc_u64(bs.len() as u64) + (bs + rest));
    lemma_dec_enc_u64(bs.len() as u64, bs + rest);
    assert((bs + rest).take(bs.len() as int) =~= bs);
    assert((bs + rest).skip(bs.len() as int) =~= rest);
}

/// Append a length-prefixed byte string.
pub fn enc_bytes(out: &mut Vec<u8>, data: &[u8])
    ensures
        final(out)@ == old(out)@ + spec_enc_bytes(data@),
{
    enc_u64(out, data.len() as u64);
    out.extend_from_slice(data);
    proof {
        assert(final(out)@ =~= old(out)@ + spec_enc_bytes(data@));
    }
}

/// Read a length-prefixed byte string at cursor `pos`.
pub fn dec_bytes(bytes: &[u8], pos: usize) -> (r: Option<(Vec<u8>, usize)>)
    requires
        pos <= bytes@.len(),
    ensures
        match r {
            Some((v, p2)) => pos < p2 <= bytes@.len() && spec_dec_bytes(bytes@.skip(pos as int))
                == Some((v@, bytes@.skip(p2 as int))),
            None => spec_dec_bytes(bytes@.skip(pos as int)) is None,
        },
{
    let (n, p2) = match dec_u64(bytes, pos) {
        Some(x) => x,
        None => {
            return None;
        },
    };
    let rem = bytes.len() - p2;
    if n > rem as u64 {
        return None;
    }
    let end = p2 + (n as usize);
    let v = slice_to_vec(slice_subrange(bytes, p2, end));
    proof {
        let s2 = bytes@.skip(p2 as int);
        assert(s2.take(n as int) =~= bytes@.subrange(p2 as int, end as int));
        assert(s2.skip(n as int) =~= bytes@.skip(end as int));
    }
    Some((v, end))
}

/// Relies on `String::from_utf8` of std: it returns the string made of
/// the given bytes exactly when they are valid UTF-8, and an error
/// otherwise.
#[verifier::external_body]
pub(crate) fn bytes_to_string(v: Vec<u8>) -> (r: Option<String>)
    ensures
        match r {
            Some(s) => valid_utf8(v@) && s@ == decode_utf8(v@),
            None => !valid_utf8(v@),
        },
{
    String::from_utf8(v).ok()
}

/// A UTF-8 string: its byte encoding, length prefixed.
pub open spec fn spec_enc_str(s: Seq<char>) -> Seq<u8> {
    spec_enc_bytes(encode_utf8(s))
}

/// Read a length-prefixed UTF-8 string; bytes that are not valid UTF-8
/// are rejected.
pub open spec fn spec_dec_str(b: Seq<u8>) -> Option<(Seq<char>, Seq<u8>)> {
    match spec_dec_bytes(b) {
        Some((bs, r)) => if valid_utf8(bs) {
            Some((decode_utf8(bs), r))
        } else {
            None
        },
        None => None,
    }
}

/// Reading back an encoded string gives the characters and the rest.
pub proof fn lemma_dec_enc_str(s: Seq<char>, rest: Seq<u8>)
    requires
        encode_utf8(s).len() <= u64::MAX,
    ensures
        spec_dec_str(spec_enc_str(s) + rest) == Some((s, rest)),
{
    lemma_dec_enc_bytes(encode_utf8(s), rest);
    vstd::utf8::encode_utf8_valid_utf8(s);
    vstd::utf8::encode_utf8_decode_utf8(s);
}

/// Append a length-prefixed UTF-8 string.
pub fn enc_str(out: &mut Vec<u8>, s: &str)
    ensures
        final(out)@ == old(out)@ + spec_enc_str(s@),
{
    enc_bytes(out, s.as_bytes());
}

/// Read a length-prefixed UTF-8 string at cursor `pos`.
pub fn dec_str(bytes: &[u8], pos: usize) -> (r: Option<(String, usize)>)
    requires
        pos <= bytes@.len(),
    ensures
        match r {
            Some((v, p2)) => pos < p2 <= bytes@.len() && spec_dec_str(bytes@.skip(pos as int))
                == Some((v@, bytes@.skip(p2 as int))),
            None => spec_dec_str(bytes@.skip(pos as int)) is None,
        },
{
    let (v, p2) = match dec_bytes(bytes, pos) {
        Some(x) => x,
        None => {
            return None;
        },
    };
    match bytes_to_string(v) {
        Some(s) => Some((s, p2)),
        None => None,
    }
}

/// An optional string: a tag byte, then the string when present.
pub open spec fn spec_enc_opt_str(o: Option<Seq<char>>) -> Seq<u8> {
    match o {
        None => seq![0u8],
        Some(s) => seq![1u8] + spec_enc_str(s),
    }
}

/// Read a tagged optional string.
pub open spec fn spec_dec_opt_str(b: Seq<u8>) -> Option<(Option<Seq<char>>, Seq<u8>)> {
    match spec_dec_u8(b) {
        Some((tag, r)) => if tag == 0 {
            Some((None, r))
        } else if tag == 1 {
            match spec_dec_str(r) {
                Some((s, r2)) => Some((Some(s), r2)),
                None => None,
            }
        } else {
            None
        },
        None => None,
    }
}

/// Reading back an encoded optional string gives the option and the rest.
pub proof fn lemma_dec_enc_opt_str(o: Option<Seq<char>>, rest: Seq<u8>)
    requires
        o matches Some(s) ==> encode_utf8(s).len() <= u64::MAX,
    ensures
        spec_dec_opt_str(spec_enc_opt_str(o) + rest) == Some((o, rest)),
{
    match o {
        None => {
            assert((seq![0u8] + rest).skip(1) =~= rest);
        },
        Some(s) => {
            assert(seq![1u8] + spec_enc_str(s) + rest =~= seq![1u8] + (spec_enc_str(s) + rest));
            assert((seq![1u8] + (spec_enc_str(s) + rest)).skip(1) =~= spec_enc_str(s) + rest);
            lemma_dec_enc_str(s, rest);
        },
    }
}

/// Append a tagged optional string.
pub fn enc_opt_str(out: &mut Vec<u8>, o: &Option<String>)
    ensures
        final(out)@ == old(out)@ + spec_enc_opt_str(crate::data::opt_string_view(*o)),
{
    match o {
        None => {
            enc_u8(out, 0);
        },
        Some(s) => {
            enc_u8(out, 1);
            enc_str(out, s.as_str());
            proof {
                assert(final(out)@ =~= old(out)@ + spec_enc_opt_str(
                    crate::data::opt_string_view(*o),
                ));
            }
        },
    }
}

/// Read a tagged optional string at cursor `pos`.
pub fn dec_opt_str(bytes: &[u8], pos: usize) -> (r: Option<(Option<String>, usize)>)
    requires
        pos <= bytes@.len(),
    ensures
        match r {
            Some((v, p2)) => pos < p2 <= bytes@.len() && spec_dec_opt_str(
                bytes@.skip(pos as int),
            ) == Some((crate::data::opt_string_view(v), bytes@.skip(p2 as int))),
            None => spec_dec_opt_str(bytes@.skip(pos as int)) is None,
        },
{
    let (tag, p2) = match dec_u8(bytes, pos) {
        Some(x) => x,
        None => {
            return None;
        },
    };
    if tag == 0 {
        Some((None, p2))
    } else if tag == 1 {
        match dec_str(bytes, p2) {
            Some((s, p3)) => Some((Some(s), p3)),
            None => None,
        }
    } else {
        None
    }
}

// ---------------------------------------------------------------------
// Lists of 32-bit integers.
// ---------------------------------------------------------------------
/// The elements of a list, each as four big-endian bytes.
pub open spec fn spec_enc_u32_elems(xs: Seq<u32>) -> Seq<u8>
    decreases xs.len(),
{
    if xs.len() == 0 {
        Seq::empty()
    } else {
        spec_enc_u32(xs[0]) + spec_enc_u32_elems(xs.skip(1))
    }
}

/// A list of 32-bit integers: its length as eight big-endian bytes, then
/// the elements.
pub open spec fn spec_enc_u32_list(xs: Seq<u32>) -> Seq<u8> {
    spec_enc_u64(xs.len() as u64) + spec_enc_u32_elems(xs)
}

/// Read `n` 32-bit integers.
pub open spec fn spec_dec_u32_elems(b: Seq<u8>, n: nat) -> Option<(Seq<u32>, Seq<u8>)>
    decreases n,
{
    if n == 0 {
        Some((Seq::empty(), b))
    } else {
        match spec_dec_u32(b) {
            Some((v, r)) => match spec_dec_u32_elems(r, (n - 1) as nat) {
                Some((vs, r2)) => Some((seq![v] + vs, r2)),
                None => None,
            },
            None => None,
        }
    }
}

/// Read a length-prefixed list of 32-bit integers.
pub open spec fn spec_dec_u32_list(b: Seq<u8>) -> Option<(Seq<u32>, Seq<u8>)> {
    match spec_dec_u64(b) {
        Some((n, r)) => spec_dec_u32_elems(r, n as nat),
        None => None,
    }
}

/// Appending one element to a list appends its four bytes to the list's
/// element encoding.
proof fn lemma_enc_u32_elems_push(xs: Seq<u32>, x: u32)
    ensures
        spec_enc_u32_elems(xs.push(x)) == spec_enc_u32_elems(xs) + spec_enc_u32(x),
    decreases xs.len(),
{
    if xs.len() == 0 {
        reveal_with_fuel(spec_enc_u32_elems, 2);
        assert(xs.push(x)[0] == x);
        assert(xs.push(x).skip(1) =~= Seq::<u32>::empty());
        assert(spec_enc_u32_elems(xs.push(x)) =~= spec_enc_u32_elems(xs) + spec_enc_u32(x));
    } else {
        lemma_enc_u32_elems_push(xs.skip(1), x);
        assert(xs.push(x).skip(1) =~= xs.skip(1).push(x));
        assert(xs.push(x)[0] == xs[0]);
        assert(spec_enc_u32_elems(xs.push(x)) == spec_enc_u32(xs[0]) + (spec_enc_u32_elems(
            xs.skip(1),
        ) + spec_enc_u32(x)));
        assert(spec_enc_u32(xs[0]) + (spec_enc_u32_elems(xs.skip(1)) + spec_enc_u32(x)) =~= (
        spec_enc_u32(xs[0]) + spec_enc_u32_elems(xs.skip(1))) + spec_enc_u32(x));
    }
}

/// Reading back `xs.len()` encoded elements gives `xs` and the rest.
pub proof fn lemma_dec_enc_u32_elems(xs: Seq<u32>, rest: Seq<u8>)
    ensures
        spec_dec_u32_elems(spec_enc_u32_elems(xs) + rest, xs.len()) == Some((xs, rest)),
    decreases xs.len(),
{
    if xs.len() == 0 {
        assert(spec_enc_u32_elems(xs) + rest =~= rest);
    } else {
        let tail = xs.skip(1);
        lemma_dec_enc_u32_elems(tail, rest);
        assert(spec_enc_u32_elems(xs) + rest =~= spec_enc_u32(xs[0]) + (spec_enc_u32_elems(tail)
            + rest));
        lemma_dec_enc_u32(xs[0], spec_enc_u32_elems(tail) + rest);
        assert(seq![xs[0]] + tail =~= xs);
    }
}

/// Reading back an encoded list gives the list and the rest.
pub proof fn lemma_dec_enc_u32_list(xs: Seq<u32>, rest: Seq<u8>)
    requires
        xs.len() <= u64::MAX,
    ensures
        spec_dec_u32_list(spec_enc_u32_list(xs) + rest) == Some((xs, rest)),
{
    assert(spec_enc_u32_list(xs) + rest =~= spec_enc_u64(xs.len() as u64) + (spec_enc_u32_elems(
        xs,
    ) + rest));
    lemma_dec_enc_u64(xs.len() as u64, spec_enc_u32_elems(xs) + rest);
    lemma_dec_enc_u32_elems(xs, rest);
}

/// Append a length-prefixed list of 32-bit integers.
pub fn enc_u32_list(out: &mut Vec<u8>, xs: &Vec<u32>)
    ensures
        final(out)@ == old(out)@ + spec_enc_u32_list(xs@),
{
    enc_u64(out, xs.len() as u64);
    let ghost base = out@;
    let mut i: usize = 0;
    while i < xs.len()
        invariant
            i <= xs@.len(),
            out@ == base + spec_enc_u32_elems(xs@.take(i as int)),
        decreases xs@.len() - i,
    {
        let ghost prefix = xs@.take(i as int);
        enc_u32(out, xs[i]);
        proof {
            lemma_enc_u32_elems_push(prefix, xs@[i as int]);
            assert(xs@.take(i as int + 1) =~= prefix.push(xs@[i as int]));
            assert(out@ =~= base + spec_enc_u32_elems(xs@.take(i as int + 1)));
        }
        i += 1;
    }
    proof {
        assert(xs@.take(xs@.len() as int) =~= xs@);
        assert(out@ =~= old(out)@ + spec_enc_u32_list(xs@));
    }
}

/// Read a length-prefixed list of 32-bit integers at cursor `pos`.
pub fn dec_u32_list(bytes: &[u8], pos: usize) -> (r: Option<(Vec<u32>, usize)>)
    requires
        pos <= bytes@.len(),
    ensures
        match r {
            Some((v, p2)) => pos < p2 <= bytes@.len() && spec_dec_u32_list(
                bytes@.skip(pos as int),
            ) == Some((v@, bytes@.skip(p2 as int))),
            None => spec_dec_u32_list(bytes@.skip(pos as int)) is None,
        },
{
    let (n, p1) = match dec_u64(bytes, pos) {
        Some(x) => x,
        None => {
            return None;
        },
    };
    let mut acc: Vec<u32> = Vec::new();
    let mut p: usize = p1;
    let mut i: u64 = 0;
    while i < n
        invariant
            pos < p1 <= p <= bytes@.len(),
            i <= n,
            acc@.len() == i,
            spec_dec_u64(bytes@.skip(pos as int)) == Some((n, bytes@.skip(p1 as int))),
            spec_dec_u32_elems(bytes@.skip(p1 as int), n as nat) == (match spec_dec_u32_elems(
                bytes@.skip(p as int),
                (n - i) as nat,
            ) {
                Some((vs, r)) => Some::<(Seq<u32>, Seq<u8>)>((acc@ + vs, r)),
                None => None::<(Seq<u32>, Seq<u8>)>,
            }),
        decreases n - i,
    {
        let ghost acc_before = acc@;
        let ghost p_before = p;
        let (v, p2) = match dec_u32(bytes, p) {
            Some(x) => x,
            None => {
                proof {
                    assert((n - i) as nat != 0);
                    assert(spec_dec_u32_elems(bytes@.skip(p as int), (n - i) as nat) is None);
                    assert(spec_dec_u32_list(bytes@.skip(pos as int)) == spec_dec_u32_elems(
                        bytes@.skip(p1 as int),
                        n as nat,
                    ));
                }
                return None;
            },
        };
        acc.push(v);
        p = p2;
        i = i + 1;
        proof {
            match spec_dec_u32_elems(bytes@.skip(p as int), (n - i) as nat) {
                Some((vs, r)) => {
                    assert(acc_before + (seq![v] + vs) =~= acc@ + vs);
                },
                None => {},
            }
        }
    }
    proof {
        assert(spec_dec_u32_elems(bytes@.skip(p as int), 0) == Some(
            (Seq::<u32>::empty(), bytes@.skip(p as int)),
        ));
        assert(acc@ + Seq::<u32>::empty() =~= acc@);
        assert(spec_dec_u32_list(bytes@.skip(pos as int)) == spec_dec_u32_elems(
            bytes@.skip(p1 as int),
            n as nat,
        ));
    }
    Some((acc, p))
}

// ---------------------------------------------------------------------
// Queries.
// ---------------------------------------------------------------------
/// Reading back one encoded byte gives it and the rest.
pub proof fn lemma_dec_enc_u8(n: u8, rest: Seq<u8>)
    ensures
        spec_dec_u8(seq![n] + rest) == Some((n, rest)),
{
    assert((seq![n] + rest).skip(1) =~= rest);
}

/// The canonical bytes of a query: keyword code point, page, amount,
/// then the three filter dimensions as length-prefixed code lists.
pub open spec fn spec_enc_query(q: crate::query::QueryView) -> Seq<u8> {
    spec_enc_u32(q.keyword as u32) + spec_enc_u16(q.page) + seq![q.amount] + spec_enc_bytes(q.pos)
        + spec_enc_bytes(q.region) + spec_enc_bytes(q.category)
}

/// Read a query; a keyword code point that is no Unicode scalar value is
/// rejected.
pub open spec fn spec_dec_query(b: Seq<u8>) -> Option<(crate::query::QueryView, Seq<u8>)> {
    match spec_dec_u32(b) {
        Some((kw, r1)) => if vstd::utf8::is_scalar(kw) {
            match spec_dec_u16(r1) {
                Some((page, r2)) => match spec_dec_u8(r2) {
                    Some((amount, r3)) => match spec_dec_bytes(r3) {
                        Some((pos, r4)) => match spec_dec_bytes(r4) {
                            Some((region, r5)) => match spec_dec_bytes(r5) {
                                Some((category, r6)) => Some(
                                    (
                                        crate::query::QueryView {
                                            keyword: kw as char,
                                            page,
                                            amount,
                                            pos,
                                            region,
                                            category,
                                        },
                                        r6,
                                    ),
                                ),
                                None => None,
                            },
                            None => None,
                        },
                        None => None,
                    },
                    None => None,
                },
                None => None,
            }
        } else {
            None
        },
        None => None,
    }
}

/// A whole byte string decodes to a query only when nothing is left over.
pub open spec fn spec_decode_query(b: Seq<u8>) -> Option<crate::query::QueryView> {
    match spec_dec_query(b) {
        Some((q, rest)) => if rest.len() == 0 {
            Some(q)
        } else {
            None
        },
        None => None,
    }
}

/// Reading back an encoded query gives the query and the rest.
pub proof fn lemma_dec_enc_query(q: crate::query::QueryView, rest: Seq<u8>)
    requires
        q.pos.len() <= u64::MAX,
        q.region.len() <= u64::MAX,
        q.category.len() <= u64::MAX,
    ensures
        spec_dec_query(spec_enc_query(q) + rest) == Some((q, rest)),
{
    let r5 = spec_enc_bytes(q.category) + rest;
    let r4 = spec_enc_bytes(q.region) + r5;
    let r3 = spec_enc_bytes(q.pos) + r4;
    let r2 = seq![q.amount] + r3;
    let r1 = spec_enc_u16(q.page) + r2;
    assert(spec_enc_query(q) + rest =~= spec_enc_u32(q.keyword as u32) + r1);
    lemma_dec_enc_u32(q.keyword as u32, r1);
    vstd::utf8::char_is_scalar(q.keyword);
    vstd::utf8::char_u32_cast(q.keyword, q.keyword as u32);
    lemma_dec_enc_u16(q.page, r2);
    lemma_dec_enc_u8(q.amount, r3);
    lemma_dec_enc_bytes(q.pos, r4);
    lemma_dec_enc_bytes(q.region, r5);
    lemma_dec_enc_bytes(q.category, rest);
}

/// Decoding an encoded query gives the query back.
pub proof fn lemma_decode_encode_query(q: crate::query::QueryView)
    requires
        q.pos.len() <= u64::MAX,
        q.region.len() <= u64::MAX,
        q.category.len() <= u64::MAX,
    ensures
        spec_decode_query(spec_enc_query(q)) == Some(q),
{
    lemma_dec_enc_query(q, Seq::empty());
    assert(spec_enc_query(q) + Seq::<u8>::empty() =~= spec_enc_query(q));
}

fn enc_pos_list(out: &mut Vec<u8>, xs: &Vec<crate::query::Pos>)
    ensures
        final(out)@ == old(out)@ + spec_enc_bytes(
            xs@.map_values(|p: crate::query::Pos| p.0),
        ),
{
    let mut codes: Vec<u8> = Vec::new();
    let mut i: usize = 0;
    while i < xs.len()
        invariant
            i <= xs@.len(),
            codes@.len() == i,
            forall|j: int| 0 <= j < i ==> codes@[j] == xs@[j].0,
        decreases xs@.len() - i,
    {
        codes.push(xs[i].0);
        i += 1;
    }
    proof {
        assert(codes@ =~= xs@.map_values(|p: crate::query::Pos| p.0));
    }
    enc_bytes(out, codes.as_slice());
}

fn enc_region_list(out: &mut Vec<u8>, xs: &Vec<crate::query::Region>)
    ensures
        final(out)@ == old(out)@ + spec_enc_bytes(
            xs@.map_values(|p: crate::query::Region| p.0),
        ),
{
    let mut codes: Vec<u8> = Vec::new();
    let mut i: usize = 0;
    while i < xs.len()
        invariant
            i <= xs@.len(),
            codes@.len() == i,
            forall|j: int| 0 <= j < i ==> codes@[j] == xs@[j].0,
        decreases xs@.len() - i,
    {
        codes.push(xs[i].0);
        i += 1;
    }
    proof {
        assert(codes@ =~= xs@.map_values(|p: crate::query::Region| p.0));
    }
    enc_bytes(out, codes.as_slice());
}

fn enc_category_list(out: &mut Vec<u8>, xs: &Vec<crate::query::Category>)
    ensures
        final(out)@ == old(out)@ + spec_enc_bytes(
            xs@.map_values(|p: crate::query::Category| p.0),
        ),
{
    let mut codes: Vec<u8> = Vec::new();
    let mut i: usize = 0;
    while i < xs.len()
        invariant
            i <= xs@.len(),
            codes@.len() == i,
            forall|j: int| 0 <= j < i ==> codes@[j] == xs@[j].0,
        decreases xs@.len() - i,
    {
        codes.push(xs[i].0);
        i += 1;
    }
    proof {
        assert(codes@ =~= xs@.map_values(|p: crate::query::Category| p.0));
    }
    enc_bytes(out, codes.as_slice());
}

/// The canonical bytes of a query, used as its cache key.
pub fn encode_query(q: &crate::query::OpendictQuery) -> (r: Vec<u8>)
    ensures
        r@ == spec_enc_query(q@),
{
    let mut out: Vec<u8> = Vec::new();
    enc_u32(&mut out, q.keyword as u32);
    enc_u16(&mut out, q.page);
    enc_u8(&mut out, q.amount);
    enc_pos_list(&mut out, &q.pos);
    enc_region_list(&mut out, &q.region);
    enc_category_list(&mut out, &q.category);
    proof {
        assert(out@ =~= spec_enc_query(q@));
    }
    out
}

/// Decode a whole byte string as a query.
#[verifier::rlimit(100)]
#[verifier::spinoff_prover]
pub fn decode_query(bytes: &[u8]) -> (r: Option<crate::query::OpendictQuery>)
    ensures
        match r {
            Some(q) => spec_decode_query(bytes@) == Some(q@),
            None => spec_decode_query(bytes@) is None,
        },
{
    proof {
        assert(bytes@.skip(0) =~= bytes@);
    }
    let (kw, p1) = match dec_u32(bytes, 0) {
        Some(x) => x,
        None => {
            return None;
        },
    };
    let keyword = match char::from_u32(kw) {
        Some(c) => c,
        None => {
            return None;
        },
    };
    let (page, p2) = match dec_u16(bytes, p1) {
        Some(x) => x,
        None => {
            return None;
        },
    };
    let (amount, p3) = match dec_u8(bytes, p2) {
        Some(x) => x,
        None => {
            return None;
        },
    };
    let (pos_codes, p4) = match dec_bytes(bytes, p3) {
        Some(x) => x,
        None => {
            return None;
        },
    };
    let (region_codes, p5) = match dec_bytes(bytes, p4) {
        Some(x) => x,
        None => {
            return None;
        },
    };
    let (category_codes, p6) = match dec_bytes(bytes, p5) {
        Some(x) => x,
        None => {
            return None;
        },
    };
    if p6 != bytes.len() {
        return None;
    }
    let mut pos: Vec<crate::query::Pos> = Vec::new();
    let mut i: usize = 0;
    while i < pos_codes.len()
        invariant
            i <= pos_codes@.len(),
            pos@.len() == i,
            forall|j: int| 0 <= j < i ==> pos@[j].0 == pos_codes@[j],
        decreases pos_codes@.len() - i,
    {
        pos.push(crate::query::Pos(pos_codes[i]));
        i += 1;
    }
    let mut region: Vec<crate::query::Region> = Vec::new();
    let mut i: usize = 0;
    while i < region_codes.len()
        invariant
            i <= region_codes@.len(),
            region@.len() == i,
            forall|j: int| 0 <= j < i ==> region@[j].0 == region_codes@[j],
        decreases region_codes@.len() - i,
    {
        region.push(crate::query::Region(region_codes[i]));
        i += 1;
    }
    let mut category: Vec<crate::query::Category> = Vec::new();
    let mut i: usize = 0;
    while i < category_codes.len()
        invariant
            i <= category_codes@.len(),
            category@.len() == i,
            forall|j: int| 0 <= j < i ==> category@[j].0 == category_codes@[j],
        decreases category_codes@.len() - i,
    {
        category.push(crate::query::Category(category_codes[i]));
        i += 1;
    }
    let q = crate::query::OpendictQuery { keyword, page, amount, pos, region, category };
    proof {
        assert(q@.pos =~= pos_codes@);
        assert(q@.region =~= region_codes@);
        assert(q@.category =~= category_codes@);
        assert(bytes@.skip(p6 as int).len() == 0);
        match spec_dec_query(bytes@) {
            Some((qv, rest)) => {
                assert(qv =~= q@);
            },
            None => {
                assert(false);
            },
        }
    }
    Some(q)
}

/// The encoding is canonical at four-byte integers: bytes that decode
/// to `v` are the encoding of `v`.
pub proof fn lemma_enc_dec_u32(b: Seq<u8>)
    requires
        spec_dec_u32(b) is Some,
    ensures
        b == spec_enc_u32(spec_dec_u32(b)->Some_0.0) + spec_dec_u32(b)->Some_0.1,
{
    let b0 = b[0];
    let b1 = b[1];
    let b2 = b[2];
    let b3 = b[3];
    let v = ((b0 as u32) << 24) | ((b1 as u32) << 16) | ((b2 as u32) << 8) | (b3 as u32);
    assert((v >> 24) as u8 == b0 && (v >> 16) as u8 == b1 && (v >> 8) as u8 == b2 && v as u8
        == b3) by (bit_vector)
        requires
            v == ((b0 as u32) << 24) | ((b1 as u32) << 16) | ((b2 as u32) << 8) | (b3 as u32),
    ;
    assert(b =~= spec_enc_u32(v) + b.skip(4));
}

/// The encoding is canonical at two-byte integers.
pub proof fn lemma_enc_dec_u16(b: Seq<u8>)
    requires
        spec_dec_u16(b) is Some,
    ensures
        b == spec_enc_u16(spec_dec_u16(b)->Some_0.0) + spec_dec_u16(b)->Some_0.1,
{
    let b0 = b[0];
    let b1 = b[1];
    let v = ((b0 as u16) << 8) | (b1 as u16);
    assert((v >> 8) as u8 == b0 && v as u8 == b1) by (bit_vector)
        requires
            v == ((b0 as u16) << 8) | (b1 as u16),
    ;
    assert(b =~= spec_enc_u16(v) + b.skip(2));
}

/// The encoding is canonical at eight-byte integers.
pub proof fn lemma_enc_dec_u64(b: Seq<u8>)
    requires
        spec_dec_u64(b) is Some,
    ensures
        b == spec_enc_u64(spec_dec_u64(b)->Some_0.0) + spec_dec_u64(b)->Some_0.1,
{
    let b0 = b[0];
    let b1 = b[1];
    let b2 = b[2];
    let b3 = b[3];
    let b4 = b[4];
    let b5 = b[5];
    let b6 = b[6];
    let b7 = b[7];
    let v = ((b0 as u64) << 56) | ((b1 as u64) << 48) | ((b2 as u64) << 40) | ((b3 as u64) << 32)
        | ((b4 as u64) << 24) | ((b5 as u64) << 16) | ((b6 as u64) << 8) | (b7 as u64);
    assert((v >> 56) as u8 == b0 && (v >> 48) as u8 == b1 && (v >> 40) as u8 == b2 && (v
        >> 32) as u8 == b3 && (v >> 24) as u8 == b4 && (v >> 16) as u8 == b5 && (v >> 8) as u8
        == b6 && v as u8 == b7) by (bit_vector)
        requires
            v == ((b0 as u64) << 56) | ((b1 as u64) << 48) | ((b2 as u64) << 40) | ((b3 as u64)
                << 32) | ((b4 as u64) << 24) | ((b5 as u64) << 16) | ((b6 as u64) << 8) | (
            b7 as u64),
    ;
    assert(b =~= spec_enc_u64(v) + b.skip(8));
}

/// The encoding is canonical at byte strings.
pub proof fn lemma_enc_dec_bytes(b: Seq<u8>)
    requires
        spec_dec_bytes(b) is Some,
    ensures
        b == spec_enc_bytes(spec_dec_bytes(b)->Some_0.0) + spec_dec_bytes(b)->Some_0.1,
{
    lemma_enc_dec_u64(b);
    let (n, r) = spec_dec_u64(b)->Some_0;
    let bs = r.take(n as int);
    let rest = r.skip(n as int);
    assert(bs.len() == n);
    assert(r =~= bs + rest);
    assert(b =~= spec_enc_u64(n) + (bs + rest));
    assert(b =~= (spec_enc_u64(bs.len() as u64) + bs) + rest);
}

/// The encoding is canonical at queries: a key that decodes to a query
/// is that query's canonical key.
#[verifier::rlimit(100)]
pub proof fn lemma_enc_dec_query(b: Seq<u8>)
    requires
        spec_decode_query(b) is Some,
    ensures
        b == spec_enc_query(spec_decode_query(b)->Some_0),
{
    let (kw, r1) = spec_dec_u32(b)->Some_0;
    let (page, r2) = spec_dec_u16(r1)->Some_0;
    let (amount, r3) = spec_dec_u8(r2)->Some_0;
    let (pos, r4) = spec_dec_bytes(r3)->Some_0;
    let (region, r5) = spec_dec_bytes(r4)->Some_0;
    let (category, r6) = spec_dec_bytes(r5)->Some_0;
    let q = spec_decode_query(b)->Some_0;
    lemma_enc_dec_u32(b);
    vstd::utf8::char_u32_cast(kw as char, kw);
    assert(q.keyword as u32 == kw);
    lemma_enc_dec_u16(r1);
    assert(r2 =~= seq![amount] + r2.skip(1));
    lemma_enc_dec_bytes(r3);
    lemma_enc_dec_bytes(r4);
    lemma_enc_dec_bytes(r5);
    assert(r6.len() == 0);
    assert(spec_enc_bytes(category) + r6 =~= spec_enc_bytes(category));
    let ea = spec_enc_u32(kw);
    let eb = spec_enc_u16(page);
    let ec = seq![amount];
    let ed = spec_enc_bytes(pos);
    let ee = spec_enc_bytes(region);
    let ef = spec_enc_bytes(category);
    assert(b == ea + (eb + (ec + (ed + (ee + ef)))));
    vstd::seq_lib::lemma_concat_associative(ea, eb, ec + (ed + (ee + ef)));
    vstd::seq_lib::lemma_concat_associative(ea + eb, ec, ed + (ee + ef));
    vstd::seq_lib::lemma_concat_associative((ea + eb) + ec, ed, ee + ef);
    vstd::seq_lib::lemma_concat_associative(((ea + eb) + ec) + ed, ee, ef);
    assert(spec_enc_query(q) == ((((ea + eb) + ec) + ed) + ee) + ef);
}

/// Four-byte big-endian encodings order exactly as their integers.
pub proof fn lemma_enc_u32_lex_order(x: u32, y: u32)
    ensures
        crate::store::lex_lt(spec_enc_u32(x), spec_enc_u32(y)) <==> x < y,
{
    reveal_with_fuel(crate::store::lex_lt, 5);
    let a = spec_enc_u32(x);
    let b = spec_enc_u32(y);
    let x0 = (x >> 24) as u8;
    let x1 = (x >> 16) as u8;
    let x2 = (x >> 8) as u8;
    let x3 = x as u8;
    let y0 = (y >> 24) as u8;
    let y1 = (y >> 16) as u8;
    let y2 = (y >> 8) as u8;
    let y3 = y as u8;
    assert((x < y) == (x0 < y0 || (x0 == y0 && (x1 < y1 || (x1 == y1 && (x2 < y2 || (x2 == y2 && x3
        < y3))))))) by (bit_vector)
        requires
            x0 == (x >> 24) as u8 && x1 == (x >> 16) as u8 && x2 == (x >> 8) as u8 && x3 == x as u8
                && y0 == (y >> 24) as u8 && y1 == (y >> 16) as u8 && y2 == (y >> 8) as u8 && y3
                == y as u8,
    ;
    assert(a.skip(1) =~= seq![x1, x2, x3]);
    assert(b.skip(1) =~= seq![y1, y2, y3]);
    assert(seq![x1, x2, x3].skip(1) =~= seq![x2, x3]);
    assert(seq![y1, y2, y3].skip(1) =~= seq![y2, y3]);
    assert(seq![x2, x3].skip(1) =~= seq![x3]);
    assert(seq![y2, y3].skip(1) =~= seq![y3]);
    assert(seq![x3].skip(1) =~= Seq::<u8>::empty());
    assert(seq![y3].skip(1) =~= Seq::<u8>::empty());
    assert(crate::store::lex_lt(a, b) == (x0 < y0 || (x0 == y0 && (x1 < y1 || (x1 == y1 && (x2 < y2
        || (x2 == y2 && x3 < y3)))))));
}

// ---------------------------------------------------------------------
// Page results.
// ---------------------------------------------------------------------
/// The canonical bytes of a timestamp: year, then month, day, hour,
/// minute, second as single bytes.
pub open spec fn spec_enc_datetime(d: crate::data::OpendictDateTime) -> Seq<u8> {
    spec_enc_u16(d.year) + seq![d.month, d.day, d.hour, d.minute, d.second]
}

/// Read a timestamp.
pub open spec fn spec_dec_datetime(b: Seq<u8>) -> Option<(crate::data::OpendictDateTime, Seq<
    u8,
>)> {
    match spec_dec_u16(b) {
        Some((year, r)) => if r.len() >= 5 {
            Some(
                (
                    crate::data::OpendictDateTime {
                        year,
                        month: r[0],
                        day: r[1],
                        hour: r[2],
                        minute: r[3],
                        second: r[4],
                    },
                    r.skip(5),
                ),
            )
        } else {
            None
        },
        None => None,
    }
}

/// Reading back an encoded timestamp gives it and the rest.
pub proof fn lemma_dec_enc_datetime(d: crate::data::OpendictDateTime, rest: Seq<u8>)
    ensures
        spec_dec_datetime(spec_enc_datetime(d) + rest) == Some((d, rest)),
{
    let tail = seq![d.month, d.day, d.hour, d.minute, d.second] + rest;
    assert(spec_enc_datetime(d) + rest =~= spec_enc_u16(d.year) + tail);
    lemma_dec_enc_u16(d.year, tail);
    assert(tail.skip(5) =~= rest);
}

/// Append a timestamp.
pub fn enc_datetime(out: &mut Vec<u8>, d: &crate::data::OpendictDateTime)
    ensures
        final(out)@ == old(out)@ + spec_enc_datetime(*d),
{
    enc_u16(out, d.year);
    out.push(d.month);
    out.push(d.day);
    out.push(d.hour);
    out.push(d.minute);
    out.push(d.second);
    proof {
        assert(out@ =~= old(out)@ + spec_enc_datetime(*d));
    }
}

/// Read a timestamp at cursor `pos`.
pub fn dec_datetime(bytes: &[u8], pos: usize) -> (r: Option<(
    crate::data::OpendictDateTime,
    usize,
)>)
    requires
        pos <= bytes@.len(),
    ensures
        match r {
            Some((v, p2)) => pos < p2 <= bytes@.len() && spec_dec_datetime(
                bytes@.skip(pos as int),
            ) == Some((v, bytes@.skip(p2 as int))),
            None => spec_dec_datetime(bytes@.skip(pos as int)) is None,
        },
{
    let (year, p1) = match dec_u16(bytes, pos) {
        Some(x) => x,
        None => {
            return None;
        },
    };
    if bytes.len() - p1 < 5 {
        return None;
    }
    let month = *slice_index_get(bytes, p1);
    let day = *slice_index_get(bytes, p1 + 1);
    let hour = *slice_index_get(bytes, p1 + 2);
    let minute = *slice_index_get(bytes, p1 + 3);
    let second = *slice_index_get(bytes, p1 + 4);
    let d = crate::data::OpendictDateTime { year, month, day, hour, minute, second };
    proof {
        let s = bytes@.skip(p1 as int);
        assert(s[0] == bytes@[p1 as int]);
        assert(s[1] == bytes@[p1 as int + 1]);
        assert(s[2] == bytes@[p1 as int + 2]);
        assert(s[3] == bytes@[p1 as int + 3]);
        assert(s[4] == bytes@[p1 as int + 4]);
        assert(s.skip(5) =~= bytes@.skip(p1 as int + 5));
    }
    Some((d, p1 + 5))
}

/// The canonical bytes of a page result: the three counters, the entry
/// code list, the timestamp.
pub open spec fn spec_enc_result(rv: crate::data::ResultView) -> Seq<u8> {
    spec_enc_u32(rv.total) + spec_enc_u32(rv.size) + spec_enc_u32(rv.page) + spec_enc_u32_list(
        rv.data_index,
    ) + spec_enc_datetime(rv.datetime)
}

/// Read a page result.
pub open spec fn spec_dec_result(b: Seq<u8>) -> Option<(crate::data::ResultView, Seq<u8>)> {
    match spec_dec_u32(b) {
        Some((total, r1)) => match spec_dec_u32(r1) {
            Some((size, r2)) => match spec_dec_u32(r2) {
                Some((page, r3)) => match spec_dec_u32_list(r3) {
                    Some((data_index, r4)) => match spec_dec_datetime(r4) {
                        Some((datetime, r5)) => Some(
                            (
                                crate::data::ResultView {
                                    total,
                                    size,
                                    page,
                                    data_index,
                                    datetime,
                                },
                                r5,
                            ),
                        ),
                        None => None,
                    },
                    None => None,
                },
                None => None,
            },
            None => None,
        },
        None => None,
    }
}

/// A whole byte string decodes to a page result only when nothing is
/// left over.
pub open spec fn spec_decode_result(b: Seq<u8>) -> Option<crate::data::ResultView> {
    match spec_dec_result(b) {
        Some((rv, rest)) => if rest.len() == 0 {
            Some(rv)
        } else {
            None
        },
        None => None,
    }
}

/// Reading back an encoded page result gives it and the rest.
pub proof fn lemma_dec_enc_result(rv: crate::data::ResultView, rest: Seq<u8>)
    requires
        rv.data_index.len() <= u64::MAX,
    ensures
        spec_dec_result(spec_enc_result(rv) + rest) == Some((rv, rest)),
{
    let r4 = spec_enc_datetime(rv.datetime) + rest;
    let r3 = spec_enc_u32_list(rv.data_index) + r4;
    let r2 = spec_enc_u32(rv.page) + r3;
    let r1 = spec_enc_u32(rv.size) + r2;
    assert(spec_enc_result(rv) + rest =~= spec_enc_u32(rv.total) + r1);
    lemma_dec_enc_u32(rv.total, r1);
    lemma_dec_enc_u32(rv.size, r2);
    lemma_dec_enc_u32(rv.page, r3);
    lemma_dec_enc_u32_list(rv.data_index, r4);
    lemma_dec_enc_datetime(rv.datetime, rest);
}

/// Decoding an encoded page result gives it back.
pub proof fn lemma_decode_encode_result(rv: crate::data::ResultView)
    requires
        rv.data_index.len() <= u64::MAX,
    ensures
        spec_decode_result(spec_enc_result(rv)) == Some(rv),
{
    lemma_dec_enc_result(rv, Seq::empty());
    assert(spec_enc_result(rv) + Seq::<u8>::empty() =~= spec_enc_result(rv));
}

/// The canonical bytes of a page result, as stored for its query.
pub fn encode_result(rv: &crate::data::OpendictResult) -> (r: Vec<u8>)
    ensures
        r@ == spec_enc_result(rv@),
{
    let mut out: Vec<u8> = Vec::new();
    enc_u32(&mut out, rv.total);
    enc_u32(&mut out, rv.size);
    enc_u32(&mut out, rv.page);
    enc_u32_list(&mut out, &rv.data_index);
    enc_datetime(&mut out, &rv.datetime);
    proof {
        assert(out@ =~= spec_enc_result(rv@));
    }
    out
}

/// Decode a whole byte string as a page result.
#[verifier::rlimit(100)]
#[verifier::spinoff_prover]
pub fn decode_result(bytes: &[u8]) -> (r: Option<crate::data::OpendictResult>)
    ensures
        match r {
            Some(rv) => spec_decode_result(bytes@) == Some(rv@),
            None => spec_decode_result(bytes@) is None,
        },
{
    proof {
        assert(bytes@.skip(0) =~= bytes@);
    }
    let (total, p1) = match dec_u32(bytes, 0) {
        Some(x) => x,
        None => {
            return None;
        },
    };
    let (size, p2) = match dec_u32(bytes, p1) {
        Some(x) => x,
        None => {
            return None;
        },
    };
    let (page, p3) = match dec_u32(bytes, p2) {
        Some(x) => x,
        None => {
            return None;
        },
    };
    let (data_index, p4) = match dec_u32_list(bytes, p3) {
        Some(x) => x,
        None => {
            return None;
        },
    };
    let (datetime, p5) = match dec_datetime(bytes, p4) {
        Some(x) => x,
        None => {
            return None;
        },
    };
    if p5 != bytes.len() {
        return None;
    }
    let rv = crate::data::OpendictResult { total, size, page, data_index, datetime };
    proof {
        assert(bytes@.skip(p5 as int).len() == 0);
        match spec_dec_result(bytes@) {
            Some((v, rest)) => {
                assert(v =~= rv@);
            },
            None => {
                assert(false);
            },
        }
    }
    Some(rv)
}

// ---------------------------------------------------------------------
// Entries.
// ---------------------------------------------------------------------
/// The canonical bytes of an entry: the optional annotations, the word,
/// the definition, the code, the class, the part of speech, the origin.
pub open spec fn spec_enc_data(d: crate::data::DataView) -> Seq<u8> {
    spec_enc_opt_str(d.syntactic_annotation) + spec_enc_opt_str(d.syntactic_argument)
        + spec_enc_str(d.word) + spec_enc_str(d.definition) + spec_enc_u32(d.code) + spec_enc_str(
        d.kind,
    ) + spec_enc_str(d.pos) + spec_enc_opt_str(d.origin)
}

/// Read an entry.
pub open spec fn spec_dec_data(b: Seq<u8>) -> Option<(crate::data::DataView, Seq<u8>)> {
    match spec_dec_opt_str(b) {
        Some((syntactic_annotation, r1)) => match spec_dec_opt_str(r1) {
            Some((syntactic_argument, r2)) => match spec_dec_str(r2) {
                Some((word, r3)) => match spec_dec_str(r3) {
                    Some((definition, r4)) => match spec_dec_u32(r4) {
                        Some((code, r5)) => match spec_dec_str(r5) {
                            Some((kind, r6)) => match spec_dec_str(r6) {
                                Some((pos, r7)) => match spec_dec_opt_str(r7) {
                                    Some((origin, r8)) => Some(
                                        (
                                            crate::data::DataView {
                                                syntactic_annotation,
                                                syntactic_argument,
                                                word,
                                                definition,
                                                code,
                                                kind,
                                                pos,
                                                origin,
                                            },
                                            r8,
                                        ),
                                    ),
                                    None => None,
                                },
                                None => None,
                            },
                            None => None,
                        },
                        None => None,
                    },
                    None => None,
                },
                None => None,
            },
            None => None,
        },
        None => None,
    }
}

/// A whole byte string decodes to an entry only when nothing is left
/// over.
pub open spec fn spec_decode_data(b: Seq<u8>) -> Option<crate::data::DataView> {
    match spec_dec_data(b) {
        Some((d, rest)) => if rest.len() == 0 {
            Some(d)
        } else {
            None
        },
        None => None,
    }
}

/// The byte lengths an entry's strings must respect for its frame: each
/// is length prefixed with eight bytes. Every string held in memory
/// satisfies this.
pub open spec fn spec_data_lens_ok(d: crate::data::DataView) -> bool {
    &&& (d.syntactic_annotation matches Some(s) ==> encode_utf8(s).len() <= u64::MAX)
    &&& (d.syntactic_argument matches Some(s) ==> encode_utf8(s).len() <= u64::MAX)
    &&& encode_utf8(d.word).len() <= u64::MAX
    &&& encode_utf8(d.definition).len() <= u64::MAX
    &&& encode_utf8(d.kind).len() <= u64::MAX
    &&& encode_utf8(d.pos).len() <= u64::MAX
    &&& (d.origin matches Some(s) ==> encode_utf8(s).len() <= u64::MAX)
}

/// Reading back an encoded entry gives it and the rest.
#[verifier::rlimit(100)]
#[verifier::spinoff_prover]
pub proof fn lemma_dec_enc_data(d: crate::data::DataView, rest: Seq<u8>)
    requires
        spec_data_lens_ok(d),
    ensures
        spec_dec_data(spec_enc_data(d) + rest) == Some((d, rest)),
{
    let r7 = spec_enc_opt_str(d.origin) + rest;
    let r6 = spec_enc_str(d.pos) + r7;
    let r5 = spec_enc_str(d.kind) + r6;
    let r4 = spec_enc_u32(d.code) + r5;
    let r3 = spec_enc_str(d.definition) + r4;
    let r2 = spec_enc_str(d.word) + r3;
    let r1 = spec_enc_opt_str(d.syntactic_argument) + r2;
    assert(spec_enc_data(d) + rest =~= spec_enc_opt_str(d.syntactic_annotation) + r1);
    lemma_dec_enc_opt_str(d.syntactic_annotation, r1);
    lemma_dec_enc_opt_str(d.syntactic_argument, r2);
    lemma_dec_enc_str(d.word, r3);
    lemma_dec_enc_str(d.definition, r4);
    lemma_dec_enc_u32(d.code, r5);
    lemma_dec_enc_str(d.kind, r6);
    lemma_dec_enc_str(d.pos, r7);
    lemma_dec_enc_opt_str(d.origin, rest);
}

/// Decoding an encoded entry gives it back.
pub proof fn lemma_decode_encode_data(d: crate::data::DataView)
    requires
        spec_data_lens_ok(d),
    ensures
        spec_decode_data(spec_enc_data(d)) == Some(d),
{
    lemma_dec_enc_data(d, Seq::empty());
    assert(spec_enc_data(d) + Seq::<u8>::empty() =~= spec_enc_data(d));
}

/// The canonical bytes of an entry, as stored under its code.
pub fn encode_data(d: &crate::data::OpendictData) -> (r: Vec<u8>)
    ensures
        r@ == spec_enc_data(d@),
{
    let mut out: Vec<u8> = Vec::new();
    enc_opt_str(&mut out, &d.syntactic_annotation);
    enc_opt_str(&mut out, &d.syntactic_argument);
    enc_str(&mut out, d.word.as_str());
    enc_str(&mut out, d.definition.as_str());
    enc_u32(&mut out, d.code);
    enc_str(&mut out, d.kind.as_str());
    enc_str(&mut out, d.pos.as_str());
    enc_opt_str(&mut out, &d.origin);
    proof {
        assert(out@ =~= spec_enc_data(d@));
    }
    out
}

/// Decode a whole byte string as an entry.
#[verifier::rlimit(100)]
#[verifier::spinoff_prover]
pub fn decode_data(bytes: &[u8]) -> (r: Option<crate::data::OpendictData>)
    ensures
        match r {
            Some(d) => spec_decode_data(bytes@) == Some(d@),
            None => spec_decode_data(bytes@) is None,
        },
{
    proof {
        assert(bytes@.skip(0) =~= bytes@);
    }
    let (syntactic_annotation, p1) = match dec_opt_str(bytes, 0) {
        Some(x) => x,
        None => {
            return None;
        },
    };
    let (syntactic_argument, p2) = match dec_opt_str(bytes, p1) {
        Some(x) => x,
        None => {
            return None;
        },
    };
    let (word, p3) = match dec_str(bytes, p2) {
        Some(x) => x,
        None => {
            return None;
        },
    };
    let (definition, p4) = match dec_str(bytes, p3) {
        Some(x) => x,
        None => {
            return None;
        },
    };
    let (code, p5) = match dec_u32(bytes, p4) {
        Some(x) => x,
        None => {
            return None;
        },
    };
    let (kind, p6) = match dec_str(bytes, p5) {
        Some(x) => x,
        None => {
            return None;
        },
    };
    let (pos, p7) = match dec_str(bytes, p6) {
        Some(x) => x,
        None => {
            return None;
        },
    };
    let (origin, p8) = match dec_opt_str(bytes, p7) {
        Some(x) => x,
        None => {
            return None;
        },
    };
    if p8 != bytes.len() {
        return None;
    }
    let d = crate::data::OpendictData {
        syntactic_annotation,
        syntactic_argument,
        word,
        definition,
        code,
        kind,
        pos,
        origin,
    };
    proof {
        assert(bytes@.skip(p8 as int).len() == 0);
        match spec_dec_data(bytes@) {
            Some((v, rest)) => {
                assert(v =~= d@);
            },
            None => {
                assert(false);
            },
        }
    }
    Some(d)
}

} // verus!
