//! A write cursor over a fixed-size byte buffer.

use vstd::prelude::*;
use crate::byte_utils::{be_u16, be_u32};

verus! {

#[derive(Debug)]
pub struct MutDnsPacket<'a> {
    buf: &'a mut [u8],
    pos: usize,
}

impl<'a> MutDnsPacket<'a> {
    pub closed spec fn data(&self) -> Seq<u8> {
        self.buf@
    }

    pub closed spec fn cursor(&self) -> int {
        self.pos as int
    }

    pub fn new(buf: &'a mut [u8]) -> (r: MutDnsPacket<'a>)
        ensures
            r.data() == old(buf)@,
            r.cursor() == 0,
    {
        MutDnsPacket::new_at(buf, 0)
    }

    pub fn new_at(buf: &'a mut [u8], pos: usize) -> (r: MutDnsPacket<'a>)
        ensures
            r.data() == old(buf)@,
            r.cursor() == pos,
    {
        MutDnsPacket { buf: buf, pos: pos }
    }

    pub fn pos(&self) -> (r: usize)
        ensures
            r == self.cursor(),
    {
        self.pos
    }

    pub fn len(&self) -> (r: usize)
        ensures
            r == self.data().len(),
    {
        self.buf.len()
    }

    /// Moves to `pos`; refuses a position past the end.
    pub fn seek(&mut self, pos: usize) -> (r: bool)
        ensures
            r == (pos <= old(self).data().len()),
            final(self).data() == old(self).data(),
            final(self).cursor() == if r {
                pos as int
            } else {
                old(self).cursor()
            },
    {
        if pos > self.buf.len() {
            return false;
        }
        self.pos = pos;
        true
    }

    pub fn next_u8(&mut self) -> (r: Option<u8>)
        ensures
            final(self).data() == old(self).data(),
            r == if old(self).cursor() < old(self).data().len() {
                Some(old(self).data()[old(self).cursor()])
            } else {
                None::<u8>
            },
            final(self).cursor() == if r is Some {
                old(self).cursor() + 1
            } else {
                old(self).cursor()
            },
    {
        let len = self.buf.len();
        if self.pos >= len {
            return None;
        }
        let byte = self.buf[self.pos];
        self.pos = self.pos + 1;
        Some(byte)
    }

    /// The next two bytes as a big-endian value, only when both are there.
    pub fn next_u16(&mut self) -> (r: Option<u16>)
        ensures
            final(self).data() == old(self).data(),
            r == if old(self).cursor() + 2 <= old(self).data().len() {
                Some(
                    be_u16(
                        old(self).data()[old(self).cursor()],
                        old(self).data()[old(self).cursor() + 1],
                    ),
                )
            } else {
                None::<u16>
            },
            final(self).cursor() == if r is Some {
                old(self).cursor() + 2
            } else {
                old(self).cursor()
            },
    {
        let len = self.buf.len();
        if self.pos >= len || len - self.pos < 2 {
            return None;
        }
        let v = crate::byte_utils::read_u16_at(self.buf, self.pos);
        self.pos = self.pos + 2;
        Some(v)
    }

    /// The next four bytes as a big-endian value, only when all are there.
    pub fn next_u32(&mut self) -> (r: Option<u32>)
        ensures
            final(self).data() == old(self).data(),
            r == if old(self).cursor() + 4 <= old(self).data().len() {
                Some(
                    be_u32(
                        old(self).data()[old(self).cursor()],
                        old(self).data()[old(self).cursor() + 1],
                        old(self).data()[old(self).cursor() + 2],
                        old(self).data()[old(self).cursor() + 3],
                    ),
                )
            } else {
                None::<u32>
            },
            final(self).cursor() == if r is Some {
                old(self).cursor() + 4
            } else {
                old(self).cursor()
            },
    {
        let len = self.buf.len();
        if self.pos >= len || len - self.pos < 4 {
            return None;
        }
        let p = self.pos;
        let b0 = self.buf[p];
        let b1 = self.buf[p + 1];
        let b2 = self.buf[p + 2];
        let b3 = self.buf[p + 3];
        let v = crate::byte_utils::read_u32(&[b0, b1, b2, b3]);
        self.pos = self.pos + 4;
        Some(v)
    }

    /// Writes one byte at the cursor when there is room for it.
    pub fn write_u8(&mut self, byte: u8) -> (r: bool)
        ensures
            r == (old(self).cursor() < old(self).data().len()),
            r ==> final(self).data() == old(self).data().update(old(self).cursor(), byte)
                && final(self).cursor() == old(self).cursor() + 1,
            !r ==> final(self).data() == old(self).data() && final(self).cursor()
                == old(self).cursor(),
    {
        let len = self.buf.len();
        if self.pos >= len {
            return false;
        }
        let p = self.pos;
        self.buf[p] = byte;
        self.pos = p + 1;
        true
    }

    /// Writes a big-endian value at the cursor when both bytes fit.
    pub fn write_u16(&mut self, bytes: u16) -> (r: bool)
        ensures
            r == (old(self).cursor() + 2 <= old(self).data().len()),
            r ==> final(self).data() == old(self).data().update(
                old(self).cursor(),
                (bytes / 256) as u8,
            ).update(old(self).cursor() + 1, (bytes % 256) as u8) && final(self).cursor()
                == old(self).cursor() + 2,
            !r ==> final(self).data() == old(self).data() && final(self).cursor()
                == old(self).cursor(),
    {
        let len = self.buf.len();
        if self.pos >= len || len - self.pos < 2 {
            return false;
        }
        let p = self.pos;
        self.buf[p] = (bytes / 256) as u8;
        self.buf[p + 1] = (bytes % 256) as u8;
        self.pos = p + 2;
        true
    }

    /// Writes a big-endian value at the cursor when all four bytes fit.
    pub fn write_u32(&mut self, bytes: u32) -> (r: bool)
        ensures
            r == (old(self).cursor() + 4 <= old(self).data().len()),
            r ==> final(self).data() == old(self).data().update(
                old(self).cursor(),
                (bytes / 0x100_0000) as u8,
            ).update(old(self).cursor() + 1, (bytes / 0x1_0000 % 256) as u8).update(
                old(self).cursor() + 2,
                (bytes / 256 % 256) as u8,
            ).update(old(self).cursor() + 3, (bytes % 256) as u8) && final(self).cursor()
                == old(self).cursor() + 4,
            !r ==> final(self).data() == old(self).data() && final(self).cursor()
                == old(self).cursor(),
    {
        let len = self.buf.len();
        if self.pos >= len || len - self.pos < 4 {
            return false;
        }
        let p = self.pos;
        self.buf[p] = (bytes / 0x100_0000) as u8;
        self.buf[p + 1] = (bytes / 0x1_0000 % 256) as u8;
        self.buf[p + 2] = (bytes / 256 % 256) as u8;
        self.buf[p + 3] = (bytes % 256) as u8;
        self.pos = p + 4;
        true
    }

    /// Writes all of `bytes` at the cursor, or nothing when they do not fit.
    pub fn write_bytes(&mut self, bytes: &[u8]) -> (r: bool)
        ensures
            r == (old(self).cursor() + bytes@.len() <= old(self).data().len()),
            r ==> final(self).data() == old(self).data().subrange(0, old(self).cursor())
                + bytes@ + old(self).data().subrange(
                old(self).cursor() + bytes@.len(),
                old(self).data().len() as int,
            ) && final(self).cursor() == old(self).cursor() + bytes@.len(),
            !r ==> final(self).data() == old(self).data() && final(self).cursor()
                == old(self).cursor(),
    {
        let len = self.buf.len();
        if self.pos > len || len - self.pos < bytes.len() {
            return false;
        }
        let ghost start = self.pos as int;
        let ghost orig = self.buf@;
        let mut i: usize = 0;
        while i < bytes.len()
            invariant
                0 <= start <= orig.len(),
                start + bytes@.len() <= orig.len(),
                len == orig.len(),
                self.data().len() == orig.len(),
                i <= bytes@.len(),
                self.cursor() == start + i,
                forall|k: int| 0 <= k < start ==> self.data()[k] == orig[k],
                forall|k: int| 0 <= k < i ==> self.data()[start + k] == bytes@[k],
                forall|k: int| start + i <= k < orig.len() ==> self.data()[k] == orig[k],
            decreases bytes@.len() - i,
        {
            let p = self.pos;
            self.buf[p] = bytes[i];
            self.pos = p + 1;
            i = i + 1;
        }
        assert(self.data() =~= orig.subrange(0, start) + bytes@ + orig.subrange(
            start + bytes@.len(),
            orig.len() as int,
        ));
        true
    }
}

} // verus!
