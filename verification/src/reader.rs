//! A cursor over a received packet.

use crate::bytes;
use crate::bytes::{read_be16, read_be32, read_be64};
use crate::packet::DecodeError;
use vstd::prelude::*;
use vstd::slice::slice_subrange;

verus! {

/// Reads a packet from front to back.
pub struct Reader<'a> {
    buf: &'a [u8],
    pos: usize,
}

impl<'a> Reader<'a> {
    /// The whole packet.
    pub closed spec fn packet(self) -> Seq<u8> {
        self.buf@
    }

    /// How much of it has been read.
    pub closed spec fn position(self) -> nat {
        self.pos as nat
    }

    /// Nothing past the end has been read.
    pub open spec fn wf(self) -> bool {
        self.position() <= self.packet().len()
    }

    /// At least `n` more bytes are there.
    pub open spec fn has(self, n: nat) -> bool {
        self.position() + n <= self.packet().len()
    }

    /// The next `n` bytes.
    pub open spec fn next(self, n: nat) -> Seq<u8> {
        self.packet().subrange(self.position() as int, (self.position() + n) as int)
    }

    /// `after` is this reader `n` bytes further.
    pub open spec fn moved(self, after: Reader<'a>, n: nat) -> bool {
        &&& after.packet() == self.packet()
        &&& after.position() == self.position() + n
        &&& after.wf()
    }

    /// At the front of `buf`.
    pub fn new(buf: &'a [u8]) -> (r: Self)
        ensures
            r.packet() == buf@,
            r.position() == 0,
            r.wf(),
    {
        Reader { buf, pos: 0 }
    }

    /// The next `n` bytes.
    pub fn take(&mut self, n: usize) -> (result: Result<&'a [u8], DecodeError>)
        requires
            old(self).wf(),
        ensures
            match result {
                Ok(slice) => old(self).has(n as nat) && slice@ == old(self).next(n as nat)
                    && old(self).moved(*final(self), n as nat),
                Err(e) => !old(self).has(n as nat) && e == DecodeError::TooShort && *final(self)
                    == *old(self),
            },
    {
        if n > self.buf.len() - self.pos {
            return Err(DecodeError::TooShort);
        }
        let end: usize = self.pos + n;
        let slice: &'a [u8] = slice_subrange(self.buf, self.pos, end);
        self.pos = end;
        Ok(slice)
    }

    /// The next byte.
    pub fn u8(&mut self) -> (result: Result<u8, DecodeError>)
        requires
            old(self).wf(),
        ensures
            match result {
                Ok(x) => old(self).has(1) && x == old(self).packet()[old(self).position() as int]
                    && old(self).moved(*final(self), 1),
                Err(e) => !old(self).has(1) && e == DecodeError::TooShort,
            },
    {
        match self.take(1) {
            Ok(slice) => Ok(slice[0]),
            Err(e) => Err(e),
        }
    }

    /// The next two bytes as a number.
    pub fn u16(&mut self) -> (result: Result<u16, DecodeError>)
        requires
            old(self).wf(),
        ensures
            match result {
                Ok(x) => old(self).has(2) && x as nat == bytes::be_value(old(self).next(2))
                    && old(self).moved(*final(self), 2),
                Err(e) => !old(self).has(2) && e == DecodeError::TooShort,
            },
    {
        match self.take(2) {
            Ok(slice) => Ok(read_be16(slice)),
            Err(e) => Err(e),
        }
    }

    /// The next four bytes as a number.
    pub fn u32(&mut self) -> (result: Result<u32, DecodeError>)
        requires
            old(self).wf(),
        ensures
            match result {
                Ok(x) => old(self).has(4) && x as nat == bytes::be_value(old(self).next(4))
                    && old(self).moved(*final(self), 4),
                Err(e) => !old(self).has(4) && e == DecodeError::TooShort,
            },
    {
        match self.take(4) {
            Ok(slice) => Ok(read_be32(slice)),
            Err(e) => Err(e),
        }
    }

    /// The next eight bytes as a number.
    pub fn u64(&mut self) -> (result: Result<u64, DecodeError>)
        requires
            old(self).wf(),
        ensures
            match result {
                Ok(x) => old(self).has(8) && x as nat == bytes::be_value(old(self).next(8))
                    && old(self).moved(*final(self), 8),
                Err(e) => !old(self).has(8) && e == DecodeError::TooShort,
            },
    {
        match self.take(8) {
            Ok(slice) => Ok(read_be64(slice)),
            Err(e) => Err(e),
        }
    }

    /// Everything not read yet.
    pub fn rest(self) -> (slice: &'a [u8])
        requires
            self.wf(),
        ensures
            slice@ == self.packet().skip(self.position() as int),
    {
        slice_subrange(self.buf, self.pos, self.buf.len())
    }
}

} // verus!
