//! A bounds-checked sequential reader over a byte buffer.
//!
//! The decoder walks a response with this cursor instead of raw indexing:
//! every read or skip either stays inside the buffer and advances the
//! position, or fails with `MalformedResponse` and leaves it unchanged.

use vstd::prelude::*;

verus! {

use crate::errors::DnsError;
use crate::fields::be16;
use crate::fields::be32;

/// A position inside a borrowed byte buffer.
pub struct Reader<'a> {
    pub buf: &'a [u8],
    pub pos: usize,
}

impl<'a> Reader<'a> {
    /// The position never points past the end of the buffer.
    pub open spec fn wf(self) -> bool {
        self.pos <= self.buf@.len()
    }

    /// A reader at the start of `buf`.
    pub fn new(buf: &'a [u8]) -> (r: Reader<'a>)
        ensures
            r.wf(),
            r.buf@ == buf@,
            r.pos == 0,
    {
        Reader { buf, pos: 0 }
    }

    /// Reads the byte at the current position and advances past it.
    pub fn read_u8(&mut self) -> (r: Result<u8, DnsError>)
        requires
            old(self).wf(),
        ensures
            final(self).wf(),
            final(self).buf@ == old(self).buf@,
            r is Ok <==> old(self).pos + 1 <= old(self).buf@.len(),
            r matches Ok(v) ==> final(self).pos == old(self).pos + 1 && v == old(self).buf@[
                old(self).pos as int],
            r is Err ==> final(self).pos == old(self).pos,
            r matches Err(e) ==> e == DnsError::MalformedResponse,
    {
        if self.pos < self.buf.len() {
            let v = self.buf[self.pos];
            self.pos = self.pos + 1;
            Ok(v)
        } else {
            Err(DnsError::MalformedResponse)
        }
    }

    /// Reads a big-endian u16 and advances past its two bytes.
    pub fn read_u16_be(&mut self) -> (r: Result<u16, DnsError>)
        requires
            old(self).wf(),
        ensures
            final(self).wf(),
            final(self).buf@ == old(self).buf@,
            r is Ok <==> old(self).pos + 2 <= old(self).buf@.len(),
            r matches Ok(v) ==> final(self).pos == old(self).pos + 2 && v as int == be16(
                old(self).buf@[old(self).pos as int],
                old(self).buf@[old(self).pos + 1],
            ),
            r is Err ==> final(self).pos == old(self).pos,
            r matches Err(e) ==> e == DnsError::MalformedResponse,
    {
        if self.buf.len() - self.pos >= 2 {
            let hi = self.buf[self.pos];
            let lo = self.buf[self.pos + 1];
            self.pos = self.pos + 2;
            Ok((hi as u16) * 256 + (lo as u16))
        } else {
            Err(DnsError::MalformedResponse)
        }
    }

    /// Reads a big-endian u32 and advances past its four bytes.
    pub fn read_u32_be(&mut self) -> (r: Result<u32, DnsError>)
        requires
            old(self).wf(),
        ensures
            final(self).wf(),
            final(self).buf@ == old(self).buf@,
            r is Ok <==> old(self).pos + 4 <= old(self).buf@.len(),
            r matches Ok(v) ==> final(self).pos == old(self).pos + 4 && v as int == be32(
                old(self).buf@[old(self).pos as int],
                old(self).buf@[old(self).pos + 1],
                old(self).buf@[old(self).pos + 2],
                old(self).buf@[old(self).pos + 3],
            ),
            r is Err ==> final(self).pos == old(self).pos,
            r matches Err(e) ==> e == DnsError::MalformedResponse,
    {
        if self.buf.len() - self.pos >= 4 {
            let b0 = self.buf[self.pos];
            let b1 = self.buf[self.pos + 1];
            let b2 = self.buf[self.pos + 2];
            let b3 = self.buf[self.pos + 3];
            self.pos = self.pos + 4;
            Ok((b0 as u32) * 0x1000000 + (b1 as u32) * 0x10000 + (b2 as u32) * 0x100 + (
            b3 as u32))
        } else {
            Err(DnsError::MalformedResponse)
        }
    }

    /// Advances past `n` bytes without reading them.
    pub fn skip(&mut self, n: usize) -> (r: Result<(), DnsError>)
        requires
            old(self).wf(),
        ensures
            final(self).wf(),
            final(self).buf@ == old(self).buf@,
            r is Ok <==> old(self).pos + n <= old(self).buf@.len(),
            r is Ok ==> final(self).pos == old(self).pos + n,
            r is Err ==> final(self).pos == old(self).pos,
            r matches Err(e) ==> e == DnsError::MalformedResponse,
    {
        if self.buf.len() - self.pos >= n {
            self.pos = self.pos + n;
            Ok(())
        } else {
            Err(DnsError::MalformedResponse)
        }
    }
}

} // verus!
