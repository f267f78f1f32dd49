//! The codec contract shared by every wire entity, together with the
//! big-endian integer and byte-buffer helpers the individual codecs build on.

use vstd::prelude::*;

use crate::error::Error;

verus! {

broadcast use vstd::array::group_array_axioms;

/// A value that can report the exact number of bytes its encoding occupies,
/// without performing the encoding.
pub trait ByteLength: View {
    /// Whether the length of this value is representable at all
    /// (for example, whether its lists are within the format's limits).
    spec fn length_wf(&self) -> bool;

    /// The reported length, at the specification level.
    spec fn spec_byte_length(&self) -> nat;

    /// Reports the byte length of this value.
    fn byte_length(&self) -> (n: usize)
        requires
            self.length_wf(),
        ensures
            n == self.spec_byte_length(),
    ;
}

/// A value that can be serialized into its canonical byte sequence.
pub trait Encodeable: View {
    /// Whether this value is within the wire format's limits.
    spec fn enc_wf(&self) -> bool;

    /// The canonical byte sequence of this value, at the specification level.
    spec fn spec_encode(&self) -> Seq<u8>;

    /// Serializes this value. Deterministic: equal values yield equal bytes.
    fn encode(&self) -> (r: Vec<u8>)
        requires
            self.enc_wf(),
        ensures
            r@ == self.spec_encode(),
    ;
}

/// A value that can be parsed from the prefix of a byte buffer.
///
/// Trailing bytes beyond the value's own encoding are left untouched for the
/// caller; a caller walking a concatenation of elements advances its cursor
/// by each decoded element's reported byte length.
pub trait Decodeable: View + Sized {
    /// What decoding a byte sequence yields, at the specification level.
    spec fn spec_decode(bytes: Seq<u8>) -> Result<Self::V, Error>;

    /// Parses a value from the prefix of `bytes`, or reports a typed error.
    fn decode(bytes: &[u8]) -> (r: Result<Self, Error>)
        ensures
            (match r {
                Ok(v) => Self::spec_decode(bytes@) == Ok::<Self::V, Error>(v@),
                Err(e) => Self::spec_decode(bytes@) == Err::<Self::V, Error>(e),
            }),
    ;
}

/// The two bytes of `x` in big-endian order.
pub open spec fn spec_u16_to_be(x: u16) -> Seq<u8> {
    seq![((x >> 8) & 0xff) as u8, (x & 0xff) as u8]
}

/// The `u16` read from two big-endian bytes.
pub open spec fn spec_u16_from_be(s: Seq<u8>) -> u16
    recommends
        s.len() == 2,
{
    ((s[0] as u16) << 8) | (s[1] as u16)
}

/// Writing a `u16` big-endian and reading it back is the identity.
pub proof fn lemma_u16_be_round_trip(x: u16)
    ensures
        spec_u16_to_be(x).len() == 2,
        spec_u16_from_be(spec_u16_to_be(x)) == x,
{
    let b0 = spec_u16_to_be(x)[0];
    let b1 = spec_u16_to_be(x)[1];
    assert(((((x >> 8) & 0xff) as u8 as u16) << 8) | ((x & 0xff) as u8 as u16) == x)
        by (bit_vector);
    assert(spec_u16_from_be(spec_u16_to_be(x)) == ((b0 as u16) << 8) | (b1 as u16));
}

/// The four bytes of `x` in big-endian order.
pub open spec fn spec_u32_to_be(x: u32) -> Seq<u8> {
    seq![
        ((x >> 24) & 0xff) as u8,
        ((x >> 16) & 0xff) as u8,
        ((x >> 8) & 0xff) as u8,
        (x & 0xff) as u8,
    ]
}

/// The `u32` read from four big-endian bytes.
pub open spec fn spec_u32_from_be(s: Seq<u8>) -> u32
    recommends
        s.len() == 4,
{
    ((s[0] as u32) << 24) | ((s[1] as u32) << 16) | ((s[2] as u32) << 8) | (s[3] as u32)
}

/// Writing a `u32` big-endian and reading it back is the identity.
pub proof fn lemma_u32_be_round_trip(x: u32)
    ensures
        spec_u32_to_be(x).len() == 4,
        spec_u32_from_be(spec_u32_to_be(x)) == x,
{
    let b0 = spec_u32_to_be(x)[0];
    let b1 = spec_u32_to_be(x)[1];
    let b2 = spec_u32_to_be(x)[2];
    let b3 = spec_u32_to_be(x)[3];
    assert((((x >> 24) & 0xff) as u8 as u32) << 24
        | (((x >> 16) & 0xff) as u8 as u32) << 16
        | (((x >> 8) & 0xff) as u8 as u32) << 8
        | ((x & 0xff) as u8 as u32) == x) by (bit_vector);
    assert(spec_u32_from_be(spec_u32_to_be(x)) == (((b0 as u32) << 24) | ((b1 as u32) << 16)
        | ((b2 as u32) << 8) | (b3 as u32)));
}

/// Appends the big-endian bytes of `x` to `out`.
pub fn push_u16_be(out: &mut Vec<u8>, x: u16)
    ensures
        final(out)@ == old(out)@ + spec_u16_to_be(x),
{
    out.push(((x >> 8) & 0xff) as u8);
    out.push((x & 0xff) as u8);
    proof {
        assert(out@ =~= old(out)@ + spec_u16_to_be(x));
    }
}

/// Appends the big-endian bytes of `x` to `out`.
pub fn push_u32_be(out: &mut Vec<u8>, x: u32)
    ensures
        final(out)@ == old(out)@ + spec_u32_to_be(x),
{
    out.push(((x >> 24) & 0xff) as u8);
    out.push(((x >> 16) & 0xff) as u8);
    out.push(((x >> 8) & 0xff) as u8);
    out.push((x & 0xff) as u8);
    proof {
        assert(out@ =~= old(out)@ + spec_u32_to_be(x));
    }
}

/// Reads a `u16` from two big-endian bytes.
pub fn u16_from_be(b0: u8, b1: u8) -> (x: u16)
    ensures
        x == spec_u16_from_be(seq![b0, b1]),
{
    ((b0 as u16) << 8) | (b1 as u16)
}

/// Reads a `u32` from four big-endian bytes.
pub fn u32_from_be(b0: u8, b1: u8, b2: u8, b3: u8) -> (x: u32)
    ensures
        x == spec_u32_from_be(seq![b0, b1, b2, b3]),
{
    ((b0 as u32) << 24) | ((b1 as u32) << 16) | ((b2 as u32) << 8) | (b3 as u32)
}

/// Appends all of `src` to `out`.
pub fn push_bytes(out: &mut Vec<u8>, src: &[u8])
    ensures
        final(out)@ == old(out)@ + src@,
{
    proof {
        assert(out@ =~= old(out)@ + src@.subrange(0, 0));
    }
    let mut i: usize = 0;
    while i < src.len()
        invariant
            i <= src@.len(),
            out@ == old(out)@ + src@.subrange(0, i as int),
        decreases src@.len() - i,
    {
        out.push(src[i]);
        proof {
            assert(out@ =~= old(out)@ + src@.subrange(0, i + 1));
        }
        i += 1;
    }
    proof {
        assert(src@.subrange(0, src@.len() as int) =~= src@);
    }
}

/// Copies `N` bytes of `bytes` starting at `off` into a fresh array.
pub fn read_array<const N: usize>(bytes: &[u8], off: usize) -> (r: [u8; N])
    requires
        off + N <= bytes@.len(),
    ensures
        r@ == bytes@.subrange(off as int, off + N),
{
    let mut r: [u8; N] = vstd::array::array_fill_for_copy_types(0u8);
    let n = bytes.len();
    let mut i: usize = 0;
    while i < N
        invariant
            i <= N,
            off + N <= n,
            n == bytes@.len(),
            forall|j: int| 0 <= j < i ==> r@[j] == bytes@[off + j],
        decreases N - i,
    {
        r[i] = bytes[off + i];
        i += 1;
    }
    proof {
        assert(r@ =~= bytes@.subrange(off as int, off + N));
    }
    r
}

} // verus!
