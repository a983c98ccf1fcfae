//! Big-endian words on the wire: reading them from a byte stream and writing
//! them into a buffer.

use vstd::prelude::*;
use crate::error::ParseError;

verus! {

/// The 32-bit value whose big-endian form is the first four bytes of `s`.
pub open spec fn spec_be32(s: Seq<u8>) -> u32
    recommends
        s.len() >= 4,
{
    (s[0] as u32) << 24 | (s[1] as u32) << 16 | (s[2] as u32) << 8 | (s[3] as u32)
}

/// The 64-bit value whose big-endian form is the first eight bytes of `s`.
pub open spec fn spec_be64(s: Seq<u8>) -> u64
    recommends
        s.len() >= 8,
{
    (spec_be32(s) as u64) << 32 | (spec_be32(s.subrange(4, 8)) as u64)
}

/// The big-endian 32-bit value that stands at offset `off` of `s`.
#[verifier::opaque]
pub open spec fn u32_at(s: Seq<u8>, off: int) -> u32
    recommends
        0 <= off,
        off + 4 <= s.len(),
{
    spec_be32(s.subrange(off, s.len() as int))
}

/// The big-endian 64-bit value that stands at offset `off` of `s`.
#[verifier::opaque]
pub open spec fn u64_at(s: Seq<u8>, off: int) -> u64
    recommends
        0 <= off,
        off + 8 <= s.len(),
{
    spec_be64(s.subrange(off, s.len() as int))
}

/// The four bytes of `v`, most significant first.
pub open spec fn be32_bytes(v: u32) -> Seq<u8> {
    seq![(v >> 24) as u8, (v >> 16) as u8, (v >> 8) as u8, v as u8]
}

/// The eight bytes of `v`, most significant first.
pub open spec fn be64_bytes(v: u64) -> Seq<u8> {
    be32_bytes((v >> 32) as u32) + be32_bytes(v as u32)
}

/// `s` with the bytes from `off` on replaced by `d`.
pub open spec fn splice(s: Seq<u8>, off: int, d: Seq<u8>) -> Seq<u8>
    recommends
        0 <= off,
        off + d.len() <= s.len(),
{
    s.subrange(0, off) + d + s.subrange(off + d.len(), s.len() as int)
}

/// Reading back the bytes of a 32-bit value gives the value.
pub proof fn lemma_be32_of_bytes(v: u32)
    ensures
        spec_be32(be32_bytes(v)) == v,
        be32_bytes(v).len() == 4,
{
    assert((((v >> 24) as u8) as u32) << 24 | (((v >> 16) as u8) as u32) << 16 | (((v >> 8) as u8)
        as u32) << 8 | ((v as u8) as u32) == v) by (bit_vector);
}

/// Reading back the bytes of a 64-bit value gives the value.
pub proof fn lemma_be64_of_bytes(v: u64)
    ensures
        spec_be64(be64_bytes(v)) == v,
        be64_bytes(v).len() == 8,
{
    let hi: u32 = (v >> 32) as u32;
    let lo: u32 = v as u32;
    lemma_be32_of_bytes(hi);
    lemma_be32_of_bytes(lo);
    assert(be64_bytes(v).subrange(4, 8) =~= be32_bytes(lo));
    assert(spec_be32(be64_bytes(v)) == spec_be32(be32_bytes(hi)));
    assert((((v >> 32) as u32) as u64) << 32 | ((v as u32) as u64) == v) by (bit_vector);
}

/// Calls `nom::number::streaming::be_u32` on a byte slice.
///
/// The contract is taken on trust from that function: with four bytes or
/// more it yields the big-endian value of the first four and the input that
/// follows them; with fewer it is incomplete by the number of bytes that are
/// missing. The body only hands the result over in this crate's types.
#[verifier::external_body]
pub(crate) fn be_u32(i: &[u8]) -> (r: Result<(&[u8], u32), ParseError>)
    ensures
        match r {
            Ok((rest, v)) => i@.len() >= 4 && rest@ == i@.subrange(4, i@.len() as int) && v
                == spec_be32(i@),
            Err(e) => i@.len() < 4 && e == ParseError::Incomplete((4 - i@.len()) as usize),
        },
{
    match nom::number::streaming::be_u32::<&[u8], nom::error::Error<&[u8]>>(i) {
        Ok((rest, v)) => Ok((rest, v)),
        Err(nom::Err::Incomplete(nom::Needed::Size(n))) => Err(ParseError::Incomplete(n.get())),
        Err(nom::Err::Incomplete(nom::Needed::Unknown)) => Err(ParseError::Incomplete(0)),
        Err(_) => Err(ParseError::Malformed),
    }
}

/// Calls `nom::number::streaming::be_u64` on a byte slice.
///
/// The contract is taken on trust from that function: with eight bytes or
/// more it yields the big-endian value of the first eight and the input that
/// follows them; with fewer it is incomplete by the number of bytes that are
/// missing. The body only hands the result over in this crate's types.
#[verifier::external_body]
pub(crate) fn be_u64(i: &[u8]) -> (r: Result<(&[u8], u64), ParseError>)
    ensures
        match r {
            Ok((rest, v)) => i@.len() >= 8 && rest@ == i@.subrange(8, i@.len() as int) && v
                == spec_be64(i@),
            Err(e) => i@.len() < 8 && e == ParseError::Incomplete((8 - i@.len()) as usize),
        },
{
    match nom::number::streaming::be_u64::<&[u8], nom::error::Error<&[u8]>>(i) {
        Ok((rest, v)) => Ok((rest, v)),
        Err(nom::Err::Incomplete(nom::Needed::Size(n))) => Err(ParseError::Incomplete(n.get())),
        Err(nom::Err::Incomplete(nom::Needed::Unknown)) => Err(ParseError::Incomplete(0)),
        Err(_) => Err(ParseError::Malformed),
    }
}

/// Writes `v` big-endian at `off`, leaving the rest of the buffer as it was.
pub fn put_be32(buf: &mut [u8], off: usize, v: u32)
    requires
        off + 4 <= old(buf)@.len(),
    ensures
        final(buf)@ == splice(old(buf)@, off as int, be32_bytes(v)),
        final(buf)@.len() == old(buf)@.len(),
{
    buf[off] = #[verifier::truncate] ((v >> 24) as u8);
    buf[off + 1] = #[verifier::truncate] ((v >> 16) as u8);
    buf[off + 2] = #[verifier::truncate] ((v >> 8) as u8);
    buf[off + 3] = #[verifier::truncate] (v as u8);
    assert(buf@ =~= splice(old(buf)@, off as int, be32_bytes(v)));
}

/// Writes `v` big-endian at `off`, leaving the rest of the buffer as it was.
pub fn put_be64(buf: &mut [u8], off: usize, v: u64)
    requires
        off + 8 <= old(buf)@.len(),
    ensures
        final(buf)@ == splice(old(buf)@, off as int, be64_bytes(v)),
        final(buf)@.len() == old(buf)@.len(),
{
    assert(buf@.len() == buf.len());
    put_be32(buf, off, #[verifier::truncate] ((v >> 32) as u32));
    put_be32(buf, off + 4, #[verifier::truncate] (v as u32));
    assert(buf@ =~= splice(old(buf)@, off as int, be64_bytes(v)));
}

/// Copies `data` into the buffer at `off`, leaving the rest as it was.
pub fn put_bytes(buf: &mut [u8], off: usize, data: &[u8])
    requires
        off + data@.len() <= old(buf)@.len(),
    ensures
        final(buf)@ == splice(old(buf)@, off as int, data@),
        final(buf)@.len() == old(buf)@.len(),
{
    assert(buf@.len() == buf.len());
    let n: usize = data.len();
    let mut k: usize = 0;
    while k < n
        invariant
            n == data@.len(),
            off + n <= usize::MAX,
            k <= n,
            off + n <= buf@.len(),
            buf@.len() == old(buf)@.len(),
            buf@ =~= splice(old(buf)@, off as int, data@.subrange(0, k as int)),
        decreases n - k,
    {
        buf[off + k] = data[k];
        k += 1;
    }
    assert(data@.subrange(0, n as int) =~= data@);
}

} // verus!
