//! A left-to-right cursor over the sixteen bits of one word, used to read
//! and write the packed flag fields of a DNS header.

use vstd::prelude::*;

verus! {

/// `b` rotated left by `k` bits.
pub open spec fn rotl(b: u16, k: u32) -> u16 {
    let s = (k % 16) as u16;
    if s == 0 {
        b
    } else {
        ((b << s) | (b >> (16 - s) as u16)) as u16
    }
}

/// `b` rotated right by `k` bits.
pub open spec fn rotr(b: u16, k: u32) -> u16 {
    let s = (k % 16) as u16;
    if s == 0 {
        b
    } else {
        ((b >> s) | (b << (16 - s) as u16)) as u16
    }
}

/// A word whose low `n` bits are set.
pub open spec fn low_mask(n: u32) -> u16 {
    if n == 0 {
        0
    } else if n >= 16 {
        0xffff
    } else {
        (0xffffu16 >> (16 - n) as u16) as u16
    }
}

/// The `n` bits that start `pos` bits from the most significant end of `b`.
pub open spec fn field(b: u16, pos: u32, n: u32) -> u16 {
    ((b >> (16 - pos - n) as u16) & low_mask(n)) as u16
}

pub struct BitCursor {
    bits: u16,
    pos: u32,
}

impl BitCursor {
    /// The word the cursor holds.
    pub closed spec fn word(&self) -> u16 {
        self.bits
    }

    /// How many bits from the most significant end the cursor stands.
    pub closed spec fn position(&self) -> u32 {
        self.pos
    }

    pub open spec fn wf(&self) -> bool {
        self.position() <= 16
    }

    pub fn new() -> (r: BitCursor)
        ensures
            r.word() == 0,
            r.position() == 0,
            r.wf(),
    {
        BitCursor { bits: 0, pos: 0 }
    }

    pub fn new_with(bits: u16) -> (r: BitCursor)
        ensures
            r.word() == bits,
            r.position() == 0,
            r.wf(),
    {
        BitCursor { bits: bits, pos: 0 }
    }

    pub fn set(&mut self, bits: u16)
        ensures
            final(self).word() == bits,
            final(self).position() == 0,
            final(self).wf(),
    {
        self.bits = bits;
        self.pos = 0;
    }

    pub fn next_bool(&mut self) -> (r: bool)
        requires
            old(self).wf(),
        ensures
            r == (rotl(old(self).word(), (old(self).position() + 1) as u32) & 1 == 1),
            final(self).wf(),
            final(self).word() == old(self).word(),
            final(self).position() == if old(self).position() + 1 <= 16 {
                old(self).position() + 1
            } else {
                old(self).position() as int
            },
    {
        proof {
            lemma_small_masks();
        }
        self.read_and_advance(1) == 1
    }

    pub fn next_u4(&mut self) -> (r: u8)
        requires
            old(self).wf(),
        ensures
            r == rotl(old(self).word(), (old(self).position() + 4) as u32) & 0xf,
            r < 16,
            final(self).wf(),
            final(self).word() == old(self).word(),
            final(self).position() == if old(self).position() + 4 <= 16 {
                old(self).position() + 4
            } else {
                old(self).position() as int
            },
    {
        proof {
            lemma_small_masks();
        }
        let v = self.read_and_advance(4);
        let ghost x = rotl(old(self).word(), (old(self).position() + 4) as u32);
        assert(x & 0xf < 16) by (bit_vector);
        v as u8
    }

    pub fn next_u8(&mut self) -> (r: u8)
        requires
            old(self).wf(),
        ensures
            r == rotl(old(self).word(), (old(self).position() + 8) as u32) & 0xff,
            final(self).wf(),
            final(self).word() == old(self).word(),
            final(self).position() == if old(self).position() + 8 <= 16 {
                old(self).position() + 8
            } else {
                old(self).position() as int
            },
    {
        proof {
            lemma_small_masks();
        }
        let v = self.read_and_advance(8);
        let ghost x = rotl(old(self).word(), (old(self).position() + 8) as u32);
        assert(x & 0xff < 256) by (bit_vector);
        v as u8
    }

    pub fn next_u16(&mut self) -> (r: u16)
        requires
            old(self).wf(),
        ensures
            r == rotl(old(self).word(), (old(self).position() + 16) as u32),
            old(self).position() == 0 ==> r == old(self).word(),
            final(self).wf(),
            final(self).word() == old(self).word(),
            final(self).position() == if old(self).position() == 0 {
                16
            } else {
                old(self).position() as int
            },
    {
        let v = self.read_and_advance(16);
        let ghost w = rotl(old(self).word(), (old(self).position() + 16) as u32);
        assert(w & 0xffff == w) by (bit_vector);
        v
    }

    /// Reads `bits` bits, the least significant of them ending `pos + bits`
    /// bits into the word, and moves past them when they lie inside it.
    pub fn read_and_advance(&mut self, bits: u32) -> (r: u16)
        requires
            old(self).wf(),
            bits <= 16,
        ensures
            r == rotl(old(self).word(), (old(self).position() + bits) as u32) & low_mask(bits),
            old(self).position() + bits <= 16 ==> r == field(
                old(self).word(),
                old(self).position(),
                bits,
            ),
            final(self).wf(),
            final(self).word() == old(self).word(),
            final(self).position() == if old(self).position() + bits <= 16 {
                old(self).position() + bits
            } else {
                old(self).position() as int
            },
    {
        let shifted = self.shift(bits);
        let mask = self.mask(bits);
        let result = shifted & mask;
        proof {
            if self.pos + bits <= 16 {
                lemma_rotl_field(self.bits, self.pos, bits);
            }
        }
        self.advance(bits);
        result
    }

    /// The word rotated left so that the `size` bits after the cursor end
    /// at the least significant bit.
    pub fn shift(&self, size: u32) -> (r: u16)
        requires
            self.wf(),
            size <= 16,
        ensures
            r == rotl(self.word(), (self.position() + size) as u32),
    {
        let count = self.pos + size;
        let s = (count % 16) as u16;
        if s == 0 {
            self.bits
        } else {
            (self.bits << s) | (self.bits >> (16 - s))
        }
    }

    /// Moves the cursor `count` bits on; refuses to move past the end.
    pub fn advance(&mut self, count: u32) -> (r: bool)
        requires
            old(self).wf(),
        ensures
            r == (old(self).position() + count <= 16),
            final(self).wf(),
            final(self).word() == old(self).word(),
            final(self).position() == if r {
                old(self).position() + count
            } else {
                old(self).position() as int
            },
    {
        if count > 16 || self.pos + count > 16 {
            return false;
        }
        self.pos = self.pos + count;
        true
    }

    /// A mask to read that many bits: `0b1` for one bit, `0b1111` for four.
    pub fn mask(&self, bits: u32) -> (r: u16)
        requires
            bits <= 16,
        ensures
            r == low_mask(bits),
    {
        let mut mask: u16 = 0;
        let mut i: u32 = 0;
        while i < bits
            invariant
                i <= bits <= 16,
                mask == low_mask(i),
            decreases bits - i,
        {
            proof {
                lemma_low_mask_step(i);
            }
            mask = (mask << 1u16) | 1;
            i = i + 1;
        }
        mask
    }

    pub fn seek(&mut self, pos: u32) -> (r: bool)
        requires
            old(self).wf(),
        ensures
            r == (pos <= 16),
            final(self).wf(),
            final(self).word() == old(self).word(),
            final(self).position() == if r {
                pos
            } else {
                old(self).position()
            },
    {
        if pos > 16 {
            return false;
        }
        self.pos = pos;
        true
    }

    pub fn write_bool(&mut self, bit: bool) -> (r: bool)
        requires
            old(self).wf(),
        ensures
            final(self).word() == old(self).word() | rotr(
                if bit {
                    1u16
                } else {
                    0u16
                },
                (old(self).position() + 1) as u32,
            ),
            r == (old(self).position() + 1 <= 16),
            final(self).wf(),
            final(self).position() == if r {
                old(self).position() + 1
            } else {
                old(self).position() as int
            },
    {
        let v: u16 = if bit {
            1
        } else {
            0
        };
        self.write_and_advance(1, v)
    }

    pub fn write_u4(&mut self, val: u8) -> (r: bool)
        requires
            old(self).wf(),
        ensures
            final(self).word() == old(self).word() | rotr(
                val as u16,
                (old(self).position() + 4) as u32,
            ),
            r == (old(self).position() + 4 <= 16),
            final(self).wf(),
            final(self).position() == if r {
                old(self).position() + 4
            } else {
                old(self).position() as int
            },
    {
        self.write_and_advance(4, val as u16)
    }

    pub fn write_u8(&mut self, val: u8) -> (r: bool)
        requires
            old(self).wf(),
        ensures
            final(self).word() == old(self).word() | rotr(
                val as u16,
                (old(self).position() + 8) as u32,
            ),
            r == (old(self).position() + 8 <= 16),
            final(self).wf(),
            final(self).position() == if r {
                old(self).position() + 8
            } else {
                old(self).position() as int
            },
    {
        self.write_and_advance(8, val as u16)
    }

    pub fn write_u16(&mut self, val: u16) -> (r: bool)
        requires
            old(self).wf(),
        ensures
            final(self).word() == old(self).word() | rotr(val, (old(self).position() + 16) as u32),
            r == (old(self).position() == 0),
            final(self).wf(),
            final(self).position() == if r {
                16
            } else {
                old(self).position() as int
            },
    {
        self.write_and_advance(16, val)
    }

    /// Merges `val` into the word so that its low `bit_cnt` bits land
    /// after the cursor, then moves past them when they fit.
    pub fn write_and_advance(&mut self, bit_cnt: u32, val: u16) -> (r: bool)
        requires
            old(self).wf(),
            bit_cnt <= 16,
        ensures
            final(self).word() == old(self).word() | rotr(
                val,
                (old(self).position() + bit_cnt) as u32,
            ),
            r == (old(self).position() + bit_cnt <= 16),
            final(self).wf(),
            final(self).position() == if r {
                old(self).position() + bit_cnt
            } else {
                old(self).position() as int
            },
    {
        let count = bit_cnt + self.pos;
        let s = (count % 16) as u16;
        let rotated_val = if s == 0 {
            val
        } else {
            (val >> s) | (val << (16 - s))
        };
        self.bits = self.bits | rotated_val;
        self.advance(bit_cnt)
    }
}

pub proof fn lemma_small_masks()
    ensures
        low_mask(1) == 1,
        low_mask(3) == 7,
        low_mask(4) == 0xf,
        low_mask(8) == 0xff,
        low_mask(16) == 0xffff,
{
    assert(0xffffu16 >> 15u16 == 1u16) by (bit_vector);
    assert(0xffffu16 >> 13u16 == 7u16) by (bit_vector);
    assert(0xffffu16 >> 12u16 == 0xfu16) by (bit_vector);
    assert(0xffffu16 >> 8u16 == 0xffu16) by (bit_vector);
}

proof fn lemma_low_mask_step(i: u32)
    requires
        i < 16,
    ensures
        ((low_mask(i) << 1u16) | 1u16) as u16 == low_mask((i + 1) as u32),
{
    let m = low_mask(i);
    if i == 0 {
        assert(((0u16 << 1u16) | 1u16) as u16 == (0xffffu16 >> 15u16) as u16) by (bit_vector);
    } else if i == 15 {
        let j = (16 - i) as u16;
        assert(j == 1);
        assert((((0xffffu16 >> 1u16) << 1u16) | 1u16) as u16 == 0xffffu16) by (bit_vector);
    } else {
        let j = (16 - i) as u16;
        assert(1 < j < 16 ==> (((0xffffu16 >> j) << 1u16) | 1u16) as u16 == (0xffffu16 >> (
        j - 1) as u16) as u16) by (bit_vector);
    }
}

/// Reading through a rotation and a mask picks out a field of the word.
pub proof fn lemma_rotl_field(b: u16, pos: u32, n: u32)
    requires
        n <= 16,
        pos + n <= 16,
    ensures
        rotl(b, (pos + n) as u32) & low_mask(n) == field(b, pos, n),
{
    let k = (pos + n) as u16;
    let nn = n as u16;
    let m = low_mask(n);
    if n == 0 {
        assert(rotl(b, (pos + n) as u32) & 0 == 0) by (bit_vector);
        assert((b >> (16 - pos - n) as u16) & 0 == 0) by (bit_vector);
    } else if k == 16 {
        assert(16 - pos - n == 0);
        assert(b >> 0u16 == b) by (bit_vector);
    } else {
        assert(m == low_mask(n));
        assert(1 <= nn <= k && k < 16 ==> (((b << k) | (b >> (16 - k) as u16)) as u16) & (
        0xffffu16 >> (16 - nn) as u16) == (b >> (16 - k) as u16) & (0xffffu16 >> (16
            - nn) as u16)) by (bit_vector);
    }
}

} // verus!
