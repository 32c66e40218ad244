//! Fixed-width integers on the wire, and the cursor the decoders read from.

use vstd::prelude::*;
use vstd::slice::slice_subrange;
use crate::error::CodecError;

verus! {

/// The two bytes of `x`, most significant first.
pub open spec fn be16(x: u16) -> Seq<u8> {
    seq![(x / 0x100) as u8, (x % 0x100) as u8]
}

/// The four bytes of `x`, most significant first.
pub open spec fn be32(x: u32) -> Seq<u8> {
    seq![
        (x / 0x100_0000) as u8,
        (x / 0x1_0000 % 0x100) as u8,
        (x / 0x100 % 0x100) as u8,
        (x % 0x100) as u8,
    ]
}

/// The four bytes of `x`, least significant first.
pub open spec fn le32(x: u32) -> Seq<u8> {
    seq![
        (x % 0x100) as u8,
        (x / 0x100 % 0x100) as u8,
        (x / 0x1_0000 % 0x100) as u8,
        (x / 0x100_0000) as u8,
    ]
}

/// The eight bytes of `x`, most significant first.
pub open spec fn be64(x: u64) -> Seq<u8> {
    be32((x / 0x1_0000_0000) as u32) + be32((x % 0x1_0000_0000) as u32)
}

/// The number whose big-endian bytes are the first two of `b`.
pub open spec fn from_be16(b: Seq<u8>) -> u16 {
    (b[0] * 0x100 + b[1]) as u16
}

/// The number whose big-endian bytes are the first four of `b`.
pub open spec fn from_be32(b: Seq<u8>) -> u32 {
    (b[0] * 0x100_0000 + b[1] * 0x1_0000 + b[2] * 0x100 + b[3]) as u32
}

/// The number whose little-endian bytes are the first four of `b`.
pub open spec fn from_le32(b: Seq<u8>) -> u32 {
    (b[3] * 0x100_0000 + b[2] * 0x1_0000 + b[1] * 0x100 + b[0]) as u32
}

/// The number whose big-endian bytes are the first eight of `b`.
pub open spec fn from_be64(b: Seq<u8>) -> u64 {
    (from_be32(b) * 0x1_0000_0000 + from_be32(b.skip(4))) as u64
}

/// Reading back what `be16` wrote gives the number again, whatever follows.
pub proof fn lemma_be16_roundtrip(x: u16, rest: Seq<u8>)
    ensures
        be16(x).len() == 2,
        from_be16(be16(x) + rest) == x,
{
}

/// Reading back what `be32` wrote gives the number again, whatever follows.
pub proof fn lemma_be32_roundtrip(x: u32, rest: Seq<u8>)
    ensures
        be32(x).len() == 4,
        from_be32(be32(x) + rest) == x,
{
}

/// Reading back what `le32` wrote gives the number again, whatever follows.
pub proof fn lemma_le32_roundtrip(x: u32, rest: Seq<u8>)
    ensures
        le32(x).len() == 4,
        from_le32(le32(x) + rest) == x,
{
}

/// Reading back what `be64` wrote gives the number again, whatever follows.
pub proof fn lemma_be64_roundtrip(x: u64, rest: Seq<u8>)
    ensures
        be64(x).len() == 8,
        from_be64(be64(x) + rest) == x,
{
    let hi: u32 = (x / 0x1_0000_0000) as u32;
    let lo: u32 = (x % 0x1_0000_0000) as u32;
    lemma_be32_roundtrip(hi, be32(lo) + rest);
    lemma_be32_roundtrip(lo, rest);
    assert(be64(x) + rest =~= be32(hi) + (be32(lo) + rest));
    assert((be64(x) + rest).skip(4) =~= be32(lo) + rest);
}

/// Appends `be16(x)` to `out`.
pub fn put_be16(out: &mut Vec<u8>, x: u16)
    ensures
        final(out)@ == old(out)@ + be16(x),
{
    out.push((x / 0x100) as u8);
    out.push((x % 0x100) as u8);
    assert(out@ =~= old(out)@ + be16(x));
}

/// Appends `be32(x)` to `out`.
pub fn put_be32(out: &mut Vec<u8>, x: u32)
    ensures
        final(out)@ == old(out)@ + be32(x),
{
    out.push((x / 0x100_0000) as u8);
    out.push((x / 0x1_0000 % 0x100) as u8);
    out.push((x / 0x100 % 0x100) as u8);
    out.push((x % 0x100) as u8);
    assert(out@ =~= old(out)@ + be32(x));
}

/// Appends `le32(x)` to `out`.
pub fn put_le32(out: &mut Vec<u8>, x: u32)
    ensures
        final(out)@ == old(out)@ + le32(x),
{
    out.push((x % 0x100) as u8);
    out.push((x / 0x100 % 0x100) as u8);
    out.push((x / 0x1_0000 % 0x100) as u8);
    out.push((x / 0x100_0000) as u8);
    assert(out@ =~= old(out)@ + le32(x));
}

/// Appends `be64(x)` to `out`.
pub fn put_be64(out: &mut Vec<u8>, x: u64)
    ensures
        final(out)@ == old(out)@ + be64(x),
{
    put_be32(out, (x / 0x1_0000_0000) as u32);
    put_be32(out, (x % 0x1_0000_0000) as u32);
    assert(out@ =~= old(out)@ + be64(x));
}

/// Reads the big-endian number at the front of `b`.
pub fn get_be16(b: &[u8]) -> (x: u16)
    requires
        b@.len() >= 2,
    ensures
        x == from_be16(b@),
{
    let hi: u16 = b[0] as u16;
    let lo: u16 = b[1] as u16;
    hi * 0x100 + lo
}

/// Reads the big-endian number at the front of `b`.
pub fn get_be32(b: &[u8]) -> (x: u32)
    requires
        b@.len() >= 4,
    ensures
        x == from_be32(b@),
{
    let b0: u32 = b[0] as u32;
    let b1: u32 = b[1] as u32;
    let b2: u32 = b[2] as u32;
    let b3: u32 = b[3] as u32;
    b0 * 0x100_0000 + b1 * 0x1_0000 + b2 * 0x100 + b3
}

/// Reads the little-endian number at the front of `b`.
pub fn get_le32(b: &[u8]) -> (x: u32)
    requires
        b@.len() >= 4,
    ensures
        x == from_le32(b@),
{
    let b0: u32 = b[0] as u32;
    let b1: u32 = b[1] as u32;
    let b2: u32 = b[2] as u32;
    let b3: u32 = b[3] as u32;
    b3 * 0x100_0000 + b2 * 0x1_0000 + b1 * 0x100 + b0
}

/// Reads the big-endian number at the front of `b`.
pub fn get_be64(b: &[u8]) -> (x: u64)
    requires
        b@.len() >= 8,
    ensures
        x == from_be64(b@),
{
    let hi: u64 = get_be32(b) as u64;
    let lo: u64 = get_be32(slice_subrange(b, 4, b.len())) as u64;
    assert(b@.subrange(4, b@.len() as int) =~= b@.skip(4));
    hi * 0x1_0000_0000 + lo
}

/// A cursor over a byte buffer: the bytes that have not been read yet.
#[derive(Clone, Copy, Debug)]
pub struct Reader<'a> {
    rest: &'a [u8],
}

impl<'a> View for Reader<'a> {
    type V = Seq<u8>;

    closed spec fn view(&self) -> Seq<u8> {
        self.rest@
    }
}

impl<'a> Reader<'a> {
    /// A cursor at the start of `buf`.
    pub fn new(buf: &'a [u8]) -> (r: Self)
        ensures
            r@ == buf@,
    {
        Reader { rest: buf }
    }

    /// The number of bytes not read yet.
    pub fn remaining(&self) -> (n: usize)
        ensures
            n == self@.len(),
    {
        self.rest.len()
    }

    /// The bytes not read yet.
    pub fn as_slice(&self) -> (s: &'a [u8])
        ensures
            s@ == self@,
    {
        self.rest
    }

    /// Reads a big-endian 16-bit number.
    ///
    /// Fails with `TruncatedInput`, leaving the cursor where it was, when
    /// fewer than two bytes are left.
    pub fn take_be16(&mut self) -> (r: Result<u16, CodecError>)
        ensures
            match r {
                Ok(x) => {
                    &&& old(self)@.len() >= 2
                    &&& x == from_be16(old(self)@)
                    &&& final(self)@ == old(self)@.skip(2)
                },
                Err(e) => {
                    &&& old(self)@.len() < 2
                    &&& e == CodecError::TruncatedInput
                    &&& final(self)@ == old(self)@
                },
            },
    {
        if self.rest.len() < 2 {
            return Err(CodecError::TruncatedInput);
        }
        let x: u16 = get_be16(self.rest);
        self.advance(2);
        Ok(x)
    }

    /// Reads a big-endian 32-bit number.
    ///
    /// Fails with `TruncatedInput`, leaving the cursor where it was, when
    /// fewer than four bytes are left.
    pub fn take_be32(&mut self) -> (r: Result<u32, CodecError>)
        ensures
            match r {
                Ok(x) => {
                    &&& old(self)@.len() >= 4
                    &&& x == from_be32(old(self)@)
                    &&& final(self)@ == old(self)@.skip(4)
                },
                Err(e) => {
                    &&& old(self)@.len() < 4
                    &&& e == CodecError::TruncatedInput
                    &&& final(self)@ == old(self)@
                },
            },
    {
        if self.rest.len() < 4 {
            return Err(CodecError::TruncatedInput);
        }
        let x: u32 = get_be32(self.rest);
        self.advance(4);
        Ok(x)
    }

    /// Reads a big-endian 64-bit number.
    ///
    /// Fails with `TruncatedInput`, leaving the cursor where it was, when
    /// fewer than eight bytes are left.
    pub fn take_be64(&mut self) -> (r: Result<u64, CodecError>)
        ensures
            match r {
                Ok(x) => {
                    &&& old(self)@.len() >= 8
                    &&& x == from_be64(old(self)@)
                    &&& final(self)@ == old(self)@.skip(8)
                },
                Err(e) => {
                    &&& old(self)@.len() < 8
                    &&& e == CodecError::TruncatedInput
                    &&& final(self)@ == old(self)@
                },
            },
    {
        if self.rest.len() < 8 {
            return Err(CodecError::TruncatedInput);
        }
        let x: u64 = get_be64(self.rest);
        self.advance(8);
        Ok(x)
    }

    /// Moves the cursor `n` bytes forward.
    pub fn advance(&mut self, n: usize)
        requires
            n <= old(self)@.len(),
        ensures
            final(self)@ == old(self)@.skip(n as int),
    {
        let len: usize = self.rest.len();
        self.rest = slice_subrange(self.rest, n, len);
        assert(self.rest@ =~= old(self)@.skip(n as int));
    }
}

} // verus!
