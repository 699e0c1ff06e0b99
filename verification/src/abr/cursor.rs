//! A cursor over an in-memory byte stream.
//!
//! The cursor owns the bytes and a 64-bit offset. The offset may stand past
//! the end of the bytes; a read from there fails. Multi-byte integers are
//! big-endian.

use super::err::IoError;
use byteorder::{BigEndian, ByteOrder};
use vstd::prelude::*;
use vstd::slice::{slice_subrange, slice_to_vec};

verus! {

/// Whether `n` bytes can be read from offset `p` of `data`. A read of no
/// bytes succeeds wherever the cursor stands.
pub open spec fn readable(data: Seq<u8>, p: int, n: int) -> bool {
    0 <= p && 0 <= n && (n == 0 || p + n <= data.len())
}

/// The `n` bytes from offset `p` on.
pub open spec fn bytes_at(data: Seq<u8>, p: int, n: int) -> Seq<u8> {
    Seq::new(n as nat, |i: int| data[p + i])
}

/// The byte at offset `p`.
pub open spec fn u8_at(data: Seq<u8>, p: int) -> u8 {
    data[p]
}

/// The big-endian 16-bit value at offset `p`.
pub open spec fn u16_at(data: Seq<u8>, p: int) -> u16 {
    (data[p] as int * 0x100 + data[p + 1] as int) as u16
}

/// The big-endian 32-bit value at offset `p`.
pub open spec fn u32_at(data: Seq<u8>, p: int) -> u32 {
    (data[p] as int * 0x100_0000 + data[p + 1] as int * 0x1_0000 + data[p + 2] as int * 0x100
        + data[p + 3] as int) as u32
}

/// Where a failed read leaves a cursor that stood at `p`: at the end of the
/// bytes, or where it was if that is further on.
pub open spec fn offset_after_eof(data: Seq<u8>, p: int) -> int {
    if p <= data.len() {
        data.len() as int
    } else {
        p
    }
}

/// `byteorder::BigEndian::read_u16`: the first two bytes of `buf` as a
/// big-endian integer. It panics on a shorter slice, which `requires` rules
/// out.
#[verifier::external_body]
fn be_u16(buf: &[u8]) -> (r: u16)
    requires
        buf@.len() >= 2,
    ensures
        r == u16_at(buf@, 0),
{
    BigEndian::read_u16(buf)
}

/// `byteorder::BigEndian::read_u32`: the first four bytes of `buf` as a
/// big-endian integer. It panics on a shorter slice, which `requires` rules
/// out.
#[verifier::external_body]
fn be_u32(buf: &[u8]) -> (r: u32)
    requires
        buf@.len() >= 4,
    ensures
        r == u32_at(buf@, 0),
{
    BigEndian::read_u32(buf)
}

/// A byte stream with a read position.
#[derive(Debug)]
pub struct ByteCursor {
    data: Vec<u8>,
    pos: u64,
}

impl ByteCursor {
    /// The bytes of the stream.
    pub closed spec fn bytes(&self) -> Seq<u8> {
        self.data@
    }

    /// The offset of the next read.
    pub closed spec fn offset(&self) -> u64 {
        self.pos
    }

    /// Whether the next `n` bytes can be read.
    pub open spec fn can_read(&self, n: int) -> bool {
        readable(self.bytes(), self.offset() as int, n)
    }

    /// A cursor at the start of `data`.
    pub fn new(data: Vec<u8>) -> (r: Self)
        ensures
            r.bytes() == data@,
            r.offset() == 0,
    {
        ByteCursor { data, pos: 0 }
    }

    /// The current offset.
    pub fn tell(&self) -> (r: u64)
        ensures
            r == self.offset(),
    {
        self.pos
    }

    /// The number of bytes between the current offset and the end.
    pub fn remaining(&self) -> (r: u64)
        ensures
            self.bytes().len() <= usize::MAX,
            r == if self.offset() <= self.bytes().len() {
                self.bytes().len() - self.offset()
            } else {
                0
            },
    {
        let len: u64 = self.data.len() as u64;
        if self.pos <= len {
            len - self.pos
        } else {
            0
        }
    }

    /// Moves to the absolute offset `pos`, which may lie past the end.
    pub fn seek_to(&mut self, pos: u64)
        ensures
            final(self).bytes() == old(self).bytes(),
            final(self).offset() == pos,
    {
        self.pos = pos;
    }

    /// Moves by `delta` bytes. Fails, and stays, where the new offset would
    /// be negative or would not fit in 64 bits.
    pub fn seek_by(&mut self, delta: i64) -> (r: Result<u64, IoError>)
        ensures
            final(self).bytes() == old(self).bytes(),
            0 <= old(self).offset() + delta <= u64::MAX ==> r == Ok::<u64, IoError>(
                (old(self).offset() + delta) as u64,
            ) && final(self).offset() == old(self).offset() + delta,
            !(0 <= old(self).offset() + delta <= u64::MAX) ==> r == Err::<u64, IoError>(
                IoError::InvalidSeek,
            ) && final(self).offset() == old(self).offset(),
    {
        if delta >= 0 {
            let d: u64 = delta as u64;
            if d > u64::MAX - self.pos {
                return Err(IoError::InvalidSeek);
            }
            self.pos = self.pos + d;
        } else {
            // -(delta + 1) is never negative and never overflows.
            let back: u64 = (-(delta + 1)) as u64;
            if back >= self.pos {
                return Err(IoError::InvalidSeek);
            }
            self.pos = self.pos - back - 1;
        }
        Ok(self.pos)
    }

    /// The offset `delta` bytes past the current one, if it fits in 64 bits.
    /// The cursor does not move.
    pub fn offset_after(&self, delta: u64) -> (r: Result<u64, IoError>)
        ensures
            self.offset() + delta <= u64::MAX ==> r == Ok::<u64, IoError>(
                (self.offset() + delta) as u64,
            ),
            self.offset() + delta > u64::MAX ==> r == Err::<u64, IoError>(IoError::InvalidSeek),
    {
        if delta > u64::MAX - self.pos {
            Err(IoError::InvalidSeek)
        } else {
            Ok(self.pos + delta)
        }
    }

    /// Consumes what is left after a read that came up short.
    fn run_out(&mut self)
        ensures
            final(self).bytes() == old(self).bytes(),
            final(self).offset() == offset_after_eof(old(self).bytes(), old(self).offset() as int),
    {
        let len: u64 = self.data.len() as u64;
        if self.pos <= len {
            self.pos = len;
        }
    }

    /// Reads one byte.
    pub fn read_u8(&mut self) -> (r: Result<u8, IoError>)
        ensures
            final(self).bytes() == old(self).bytes(),
            old(self).can_read(1) ==> r == Ok::<u8, IoError>(
                u8_at(old(self).bytes(), old(self).offset() as int),
            ) && final(self).offset() == old(self).offset() + 1,
            !old(self).can_read(1) ==> r == Err::<u8, IoError>(IoError::UnexpectedEof)
                && final(self).offset() == offset_after_eof(
                old(self).bytes(),
                old(self).offset() as int,
            ),
    {
        if self.remaining() < 1 {
            self.run_out();
            return Err(IoError::UnexpectedEof);
        }
        let b: u8 = self.data[self.pos as usize];
        self.pos = self.pos + 1;
        Ok(b)
    }

    /// Reads a big-endian 16-bit integer.
    pub fn read_u16_be(&mut self) -> (r: Result<u16, IoError>)
        ensures
            final(self).bytes() == old(self).bytes(),
            old(self).can_read(2) ==> r == Ok::<u16, IoError>(
                u16_at(old(self).bytes(), old(self).offset() as int),
            ) && final(self).offset() == old(self).offset() + 2,
            !old(self).can_read(2) ==> r == Err::<u16, IoError>(IoError::UnexpectedEof)
                && final(self).offset() == offset_after_eof(
                old(self).bytes(),
                old(self).offset() as int,
            ),
    {
        if self.remaining() < 2 {
            self.run_out();
            return Err(IoError::UnexpectedEof);
        }
        let p: usize = self.pos as usize;
        let v: u16 = be_u16(slice_subrange(self.data.as_slice(), p, p + 2));
        self.pos = self.pos + 2;
        Ok(v)
    }

    /// Reads a big-endian 32-bit integer.
    pub fn read_u32_be(&mut self) -> (r: Result<u32, IoError>)
        ensures
            final(self).bytes() == old(self).bytes(),
            old(self).can_read(4) ==> r == Ok::<u32, IoError>(
                u32_at(old(self).bytes(), old(self).offset() as int),
            ) && final(self).offset() == old(self).offset() + 4,
            !old(self).can_read(4) ==> r == Err::<u32, IoError>(IoError::UnexpectedEof)
                && final(self).offset() == offset_after_eof(
                old(self).bytes(),
                old(self).offset() as int,
            ),
    {
        if self.remaining() < 4 {
            self.run_out();
            return Err(IoError::UnexpectedEof);
        }
        let p: usize = self.pos as usize;
        let v: u32 = be_u32(slice_subrange(self.data.as_slice(), p, p + 4));
        self.pos = self.pos + 4;
        Ok(v)
    }

    /// Reads exactly `n` bytes.
    pub fn read_exact(&mut self, n: u64) -> (r: Result<Vec<u8>, IoError>)
        ensures
            final(self).bytes() == old(self).bytes(),
            old(self).can_read(n as int) ==> r is Ok && r->Ok_0@ == bytes_at(
                old(self).bytes(),
                old(self).offset() as int,
                n as int,
            ) && final(self).offset() == old(self).offset() + n,
            !old(self).can_read(n as int) ==> r == Err::<Vec<u8>, IoError>(
                IoError::UnexpectedEof,
            ) && final(self).offset() == offset_after_eof(
                old(self).bytes(),
                old(self).offset() as int,
            ),
    {
        if n == 0 {
            return Ok(Vec::new());
        }
        if self.remaining() < n {
            self.run_out();
            return Err(IoError::UnexpectedEof);
        }
        let p: usize = self.pos as usize;
        let out = slice_to_vec(slice_subrange(self.data.as_slice(), p, p + n as usize));
        assert(out@ =~= bytes_at(self.bytes(), self.offset() as int, n as int));
        self.pos = self.pos + n;
        Ok(out)
    }
}

} // verus!
