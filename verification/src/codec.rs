//! Reversible packing of unsigned 32-bit sequences into little-endian byte
//! buffers, used for persisted adjacency lists.

use vstd::prelude::*;

use crate::errors::StoreError;

verus! {

/// Byte `j` (0-based, least significant first) of the little-endian encoding
/// of `x`.
pub open spec fn u32_le_byte(x: u32, j: int) -> u8 {
    ((x >> ((8 * j) as u32)) & 0xff) as u8
}

/// Little-endian fixed-width packing of a sequence of 32-bit values:
/// four bytes per element, least significant byte first.
pub open spec fn spec_encode(s: Seq<u32>) -> Seq<u8> {
    Seq::new(s.len() * 4, |i: int| u32_le_byte(s[i / 4], i % 4))
}

/// The 32-bit value read from four little-endian bytes.
pub open spec fn u32_from_le(b0: u8, b1: u8, b2: u8, b3: u8) -> u32 {
    (b0 as u32) | ((b1 as u32) << 8) | ((b2 as u32) << 16) | ((b3 as u32) << 24)
}

/// Inverse of `spec_encode`, defined on buffers whose length is a multiple
/// of four: each aligned group of four bytes becomes one 32-bit value.
pub open spec fn spec_decode(b: Seq<u8>) -> Seq<u32> {
    Seq::new(b.len() / 4, |i: int| u32_from_le(b[4 * i], b[4 * i + 1], b[4 * i + 2], b[4 * i + 3]))
}

/// The little-endian bytes of `x`, written with executable operators.
proof fn lemma_u32_le_byte_values(x: u32)
    ensures
        u32_le_byte(x, 0) == (x & 0xff) as u8,
        u32_le_byte(x, 1) == ((x >> 8u32) & 0xff) as u8,
        u32_le_byte(x, 2) == ((x >> 16u32) & 0xff) as u8,
        u32_le_byte(x, 3) == ((x >> 24u32) & 0xff) as u8,
{
    assert(((x >> 0u32) & 0xff) as u8 == (x & 0xff) as u8) by (bit_vector);
    assert((8 * 0) as u32 == 0u32);
}

/// Reassembling the four little-endian bytes of `x` gives `x` back.
proof fn lemma_u32_le_bytes_roundtrip(x: u32)
    ensures
        u32_from_le(u32_le_byte(x, 0), u32_le_byte(x, 1), u32_le_byte(x, 2), u32_le_byte(x, 3))
            == x,
{
    lemma_u32_le_byte_values(x);
    assert(((x & 0xff) as u8 as u32) | ((((x >> 8u32) & 0xff) as u8 as u32) << 8)
        | ((((x >> 16u32) & 0xff) as u8 as u32) << 16) | ((((x >> 24u32) & 0xff) as u8 as u32)
        << 24) == x) by (bit_vector);
}

/// Round trip: decoding an encoded sequence gives the sequence back.
pub proof fn lemma_decode_encode(s: Seq<u32>)
    ensures
        spec_decode(spec_encode(s)) == s,
{
    let e = spec_encode(s);
    assert forall|i: int| 0 <= i < s.len() implies spec_decode(e)[i] == s[i] by {
        assert(e[4 * i] == u32_le_byte(s[i], 0));
        assert(e[4 * i + 1] == u32_le_byte(s[i], 1));
        assert(e[4 * i + 2] == u32_le_byte(s[i], 2));
        assert(e[4 * i + 3] == u32_le_byte(s[i], 3));
        lemma_u32_le_bytes_roundtrip(s[i]);
    }
    assert(spec_decode(e) =~= s);
}

/// Deterministic little-endian fixed-width packing of `vec`; the result holds
/// four bytes for every element.
pub fn vec_u32_to_u8(vec: &Vec<u32>) -> (r: Vec<u8>)
    ensures
        r@ == spec_encode(vec@),
        r@.len() == 4 * vec@.len(),
{
    let mut out: Vec<u8> = Vec::new();
    let mut k: usize = 0;
    while k < vec.len()
        invariant
            k <= vec@.len(),
            out@ =~= spec_encode(vec@.take(k as int)),
        decreases vec@.len() - k,
    {
        let x = vec[k];
        out.push(#[verifier::truncate] ((x & 0xff) as u8));
        out.push(#[verifier::truncate] (((x >> 8u32) & 0xff) as u8));
        out.push(#[verifier::truncate] (((x >> 16u32) & 0xff) as u8));
        out.push(#[verifier::truncate] (((x >> 24u32) & 0xff) as u8));
        proof {
            lemma_u32_le_byte_values(x);
            let t0 = vec@.take(k as int);
            let t1 = vec@.take((k + 1) as int);
            assert forall|i: int| 0 <= i < t1.len() * 4 implies out@[i] == u32_le_byte(
                t1[i / 4],
                i % 4,
            ) by {
                if i < 4 * (k as int) {
                    assert(out@[i] == spec_encode(t0)[i]);
                    assert(spec_encode(t0)[i] == u32_le_byte(t0[i / 4], i % 4));
                    assert(t0[i / 4] == t1[i / 4]);
                } else {
                    assert(i / 4 == k as int);
                }
            }
            assert(out@ =~= spec_encode(t1));
        }
        k = k + 1;
    }
    proof {
        assert(vec@.take(vec@.len() as int) =~= vec@);
    }
    out
}

/// Inverse of `vec_u32_to_u8`: reads each aligned group of four bytes as one
/// little-endian 32-bit value. A buffer whose length is not a multiple of
/// four is rejected with `EncodingError` rather than silently truncated.
pub fn vec_u8_to_u32(vec: &Vec<u8>) -> (r: Result<Vec<u32>, StoreError>)
    ensures
        vec@.len() % 4 == 0 ==> (r matches Ok(u) && u@ == spec_decode(vec@) && u@.len() * 4
            == vec@.len()),
        vec@.len() % 4 != 0 ==> r == Err::<Vec<u32>, StoreError>(StoreError::EncodingError),
{
    if vec.len() % 4 != 0 {
        return Err(StoreError::EncodingError);
    }
    let len = vec.len();
    let n = len / 4;
    let mut out: Vec<u32> = Vec::new();
    let mut k: usize = 0;
    while k < n
        invariant
            k <= n,
            len == vec@.len(),
            n == vec@.len() / 4,
            vec@.len() % 4 == 0,
            out@ =~= spec_decode(vec@).take(k as int),
        decreases n - k,
    {
        proof {
            assert(vec@.len() == 4 * (vec@.len() / 4) + vec@.len() % 4);
            assert(4 * (k as int) + 3 < len as int);
        }
        let b0 = vec[4 * k];
        let b1 = vec[4 * k + 1];
        let b2 = vec[4 * k + 2];
        let b3 = vec[4 * k + 3];
        let x = (b0 as u32) | ((b1 as u32) << 8u32) | ((b2 as u32) << 16u32) | ((b3 as u32)
            << 24u32);
        out.push(x);
        proof {
            assert(x == u32_from_le(b0, b1, b2, b3));
            assert(spec_decode(vec@)[k as int] == x);
            assert(out@ =~= spec_decode(vec@).take((k + 1) as int));
        }
        k = k + 1;
    }
    proof {
        assert(spec_decode(vec@).take(spec_decode(vec@).len() as int) =~= spec_decode(vec@));
    }
    Ok(out)
}

} // verus!
