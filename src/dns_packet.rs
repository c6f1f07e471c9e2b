//! A read cursor over the bytes of a DNS message.

use vstd::prelude::*;
use crate::byte_utils::{be_u16, be_u32};

verus! {

/// The bytes `buf[pos..pos + n]` when they are all there, else what is left
/// from `pos` on.
pub open spec fn take_bytes(buf: Seq<u8>, pos: int, n: int) -> Seq<u8> {
    if pos >= buf.len() {
        seq![]
    } else if pos + n <= buf.len() {
        buf.subrange(pos, pos + n)
    } else {
        buf.subrange(pos, buf.len() as int)
    }
}

/// Wrapper over a buffer providing seek, peek and big-endian reads.
#[derive(Debug)]
pub struct DnsPacket<'a> {
    buf: &'a [u8],
    pos: usize,
}

/// A packet's position is never negative.
pub broadcast proof fn lemma_cursor_nonneg<'a>(p: DnsPacket<'a>)
    ensures
        #[trigger] p.cursor() >= 0,
{
}

impl<'a> DnsPacket<'a> {
    /// The bytes the packet reads.
    pub closed spec fn data(&self) -> Seq<u8> {
        self.buf@
    }

    /// Where the next read starts.
    pub closed spec fn cursor(&self) -> int {
        self.pos as int
    }

    pub fn new(buf: &'a [u8]) -> (r: DnsPacket<'a>)
        ensures
            r.data() == buf@,
            r.cursor() == 0,
    {
        DnsPacket::new_at(buf, 0)
    }

    pub fn new_at(buf: &'a [u8], pos: usize) -> (r: DnsPacket<'a>)
        ensures
            r.data() == buf@,
            r.cursor() == pos,
    {
        DnsPacket { buf: buf, pos: pos }
    }

    pub fn reset(&mut self)
        ensures
            final(self).data() == old(self).data(),
            final(self).cursor() == 0,
    {
        self.pos = 0;
    }

    /// Moves to `pos`; refuses a position past the end.
    pub fn seek(&mut self, pos: usize) -> (r: bool)
        ensures
            r == (pos <= old(self).data().len()),
            final(self).data() == old(self).data(),
            final(self).cursor() == if r {
                pos as int
            } else {
                old(self).cursor()
            },
    {
        if pos > self.buf.len() {
            return false;
        }
        self.pos = pos;
        true
    }

    pub fn pos(&self) -> (r: usize)
        ensures
            r == self.cursor(),
    {
        self.pos
    }

    pub fn len(&self) -> (r: usize)
        ensures
            r == self.data().len(),
    {
        self.buf.len()
    }

    pub fn peek_u8(&self) -> (r: Option<u8>)
        ensures
            r == if self.cursor() < self.data().len() {
                Some(self.data()[self.cursor()])
            } else {
                None::<u8>
            },
    {
        if self.pos >= self.buf.len() {
            return None;
        }
        Some(self.buf[self.pos])
    }

    /// Up to `bytes` bytes; fewer when the packet ends first.
    pub fn next_bytes(&mut self, bytes: usize) -> (r: Vec<u8>)
        ensures
            r@ == take_bytes(old(self).data(), old(self).cursor(), bytes as int),
            final(self).data() == old(self).data(),
            final(self).cursor() == if old(self).cursor() >= old(self).data().len() {
                old(self).cursor()
            } else {
                old(self).cursor() + r@.len()
            },
    {
        let ghost start = self.pos as int;
        let mut slice: Vec<u8> = Vec::new();
        let mut i: usize = 0;
        while i < bytes
            invariant
                self.data() == old(self).data(),
                start == old(self).cursor(),
                i <= bytes,
                slice@ == take_bytes(self.data(), start, i as int),
                self.cursor() == if start >= self.data().len() {
                    start
                } else {
                    start + slice@.len()
                },
            decreases bytes - i,
        {
            match self.next_u8() {
                Some(b) => {
                    assert(take_bytes(self.data(), start, i + 1) == take_bytes(
                        self.data(),
                        start,
                        i as int,
                    ).push(b));
                    slice.push(b);
                },
                None => {
                    assert(take_bytes(self.data(), start, bytes as int) == take_bytes(
                        self.data(),
                        start,
                        i as int,
                    ));
                    return slice;
                },
            }
            i = i + 1;
        }
        slice
    }

    pub fn next_u8(&mut self) -> (r: Option<u8>)
        ensures
            final(self).data() == old(self).data(),
            r == if old(self).cursor() < old(self).data().len() {
                Some(old(self).data()[old(self).cursor()])
            } else {
                None::<u8>
            },
            final(self).cursor() == if r is Some {
                old(self).cursor() + 1
            } else {
                old(self).cursor()
            },
    {
        let len = self.buf.len();
        if self.pos >= len {
            return None;
        }
        let byte = self.buf[self.pos];
        self.pos = self.pos + 1;
        Some(byte)
    }

    /// The next two bytes as a big-endian value, only when both are there;
    /// otherwise `None` and the position is kept.
    pub fn next_u16(&mut self) -> (r: Option<u16>)
        ensures
            final(self).data() == old(self).data(),
            r == if old(self).cursor() + 2 <= old(self).data().len() {
                Some(
                    be_u16(
                        old(self).data()[old(self).cursor()],
                        old(self).data()[old(self).cursor() + 1],
                    ),
                )
            } else {
                None::<u16>
            },
            final(self).cursor() == if r is Some {
                old(self).cursor() + 2
            } else {
                old(self).cursor()
            },
    {
        let len = self.buf.len();
        if self.pos >= len || len - self.pos < 2 {
            return None;
        }
        let v = crate::byte_utils::read_u16_at(self.buf, self.pos);
        self.pos = self.pos + 2;
        Some(v)
    }

    /// The next four bytes as a big-endian value, only when all are there.
    pub fn next_u32(&mut self) -> (r: Option<u32>)
        ensures
            final(self).data() == old(self).data(),
            r == if old(self).cursor() + 4 <= old(self).data().len() {
                Some(
                    be_u32(
                        old(self).data()[old(self).cursor()],
                        old(self).data()[old(self).cursor() + 1],
                        old(self).data()[old(self).cursor() + 2],
                        old(self).data()[old(self).cursor() + 3],
                    ),
                )
            } else {
                None::<u32>
            },
            final(self).cursor() == if r is Some {
                old(self).cursor() + 4
            } else {
                old(self).cursor()
            },
    {
        let len = self.buf.len();
        if self.pos >= len || len - self.pos < 4 {
            return None;
        }
        let p = self.pos;
        let b0 = self.buf[p];
        let b1 = self.buf[p + 1];
        let b2 = self.buf[p + 2];
        let b3 = self.buf[p + 3];
        let v = crate::byte_utils::read_u32(&[b0, b1, b2, b3]);
        self.pos = self.pos + 4;
        Some(v)
    }

    /// The next 16-bit word and the position after it.
    pub fn next(&mut self) -> (r: Option<(u16, usize)>)
        ensures
            final(self).data() == old(self).data(),
            r == if old(self).cursor() + 2 <= old(self).data().len() {
                Some(
                    (
                        be_u16(
                            old(self).data()[old(self).cursor()],
                            old(self).data()[old(self).cursor() + 1],
                        ),
                        (old(self).cursor() + 2) as usize,
                    ),
                )
            } else {
                None::<(u16, usize)>
            },
            final(self).cursor() == if r is Some {
                old(self).cursor() + 2
            } else {
                old(self).cursor()
            },
    {
        match self.next_u16() {
            Some(n) => Some((n, self.pos)),
            None => None,
        }
    }
}

} // verus!
