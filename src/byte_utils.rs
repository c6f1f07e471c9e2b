//! Reading big-endian integers and single bits out of byte buffers.

use vstd::prelude::*;
use crate::text::text_from_bytes;

verus! {

/// The bit at `bit_offset`, counting bits from the least significant bit of
/// each byte.
pub open spec fn bit_at(buf: Seq<u8>, bit_offset: int) -> bool {
    (buf[bit_offset / 8] >> ((bit_offset % 8) as u8)) & 1u8 == 1u8
}

/// Big-endian value of two bytes.
pub open spec fn be_u16(hi: u8, lo: u8) -> u16 {
    (hi as int * 256 + lo as int) as u16
}

/// Big-endian value of four bytes.
pub open spec fn be_u32(b0: u8, b1: u8, b2: u8, b3: u8) -> u32 {
    (b0 as int * 0x100_0000 + b1 as int * 0x1_0000 + b2 as int * 0x100 + b3 as int) as u32
}

pub fn read_bit_at(buf: &[u8], bit_offset: usize) -> (r: bool)
    requires
        bit_offset / 8 < buf@.len(),
    ensures
        r == bit_at(buf@, bit_offset as int),
{
    let byte_offset: usize = bit_offset / 8;
    let remainder: u8 = (bit_offset % 8) as u8;
    let buf_byte = buf[byte_offset];
    buf_byte >> remainder & 1 == 1
}

pub fn read_u4(buf: &[u8]) -> (r: u8)
    requires
        buf@.len() > 0,
    ensures
        r == buf@[0] & 0x0f,
        r < 16,
{
    let r = read_u4_at(buf, 0);
    let ghost b0 = buf@[0];
    assert((b0 >> 0u8) & 0x0f == b0 & 0x0f) by (bit_vector);
    r
}

pub fn read_u4_at(buf: &[u8], bit_offset: usize) -> (r: u8)
    requires
        bit_offset / 8 < buf@.len(),
    ensures
        r == (buf@[(bit_offset / 8) as int] >> ((bit_offset % 8) as u8)) & 0x0f,
        r < 16,
{
    let byte_offset: usize = bit_offset / 8;
    let remainder: u8 = (bit_offset % 8) as u8;
    let v = buf[byte_offset] >> remainder;
    assert(v & 0x0f < 16) by (bit_vector);
    v & 0x0f
}

pub fn read_u16(buf: &[u8]) -> (r: u16)
    requires
        buf@.len() >= 2,
    ensures
        r == be_u16(buf@[0], buf@[1]),
{
    read_u16_at(buf, 0)
}

pub fn read_u16_at(buf: &[u8], byte_offset: usize) -> (r: u16)
    requires
        byte_offset + 1 < buf@.len(),
    ensures
        r == be_u16(buf@[byte_offset as int], buf@[byte_offset + 1]),
{
    let byte1 = buf[byte_offset];
    let byte2 = buf[byte_offset + 1];
    let r = ((byte1 as u16) << 8) | byte2 as u16;
    assert(((byte1 as u16) << 8) | byte2 as u16 == byte1 as u16 * 256 + byte2 as u16)
        by (bit_vector);
    r
}

pub fn read_u32(buf: &[u8]) -> (r: u32)
    requires
        buf@.len() >= 4,
    ensures
        r == be_u32(buf@[0], buf@[1], buf@[2], buf@[3]),
{
    let byte1: u32 = buf[0] as u32;
    let byte2: u32 = buf[1] as u32;
    let byte3: u32 = buf[2] as u32;
    let byte4: u32 = buf[3] as u32;
    assert(byte1 < 256 && byte2 < 256 && byte3 < 256 && byte4 < 256 ==> byte1 << 24 | byte2 << 16
        | byte3 << 8 | byte4 == byte1 * 0x100_0000 + byte2 * 0x1_0000 + byte3 * 0x100 + byte4)
        by (bit_vector);
    byte1 << 24 | byte2 << 16 | byte3 << 8 | byte4
}

/// Each byte as eight binary digits followed by a space.
pub open spec fn binary_text(buf: Seq<u8>) -> Seq<u8>
    decreases buf.len(),
{
    if buf.len() == 0 {
        seq![]
    } else {
        binary_text(buf.drop_last()) + byte_digits(buf.last()) + seq![0x20u8]
    }
}

/// The eight binary digits of a byte, most significant first, as ASCII.
pub open spec fn byte_digits(b: u8) -> Seq<u8> {
    Seq::new(8, |i: int| if (b >> ((7 - i) as u8)) & 1u8 == 1u8 { 0x31u8 } else { 0x30u8 })
}

/// The bytes of `buf` written out in binary, e.g. `00001000 01110001 `.
pub fn format(buf: &[u8]) -> (r: String)
    ensures
        r@ == vstd::utf8::decode_utf8(binary_text(buf@)),
{
    let mut out: Vec<u8> = Vec::new();
    let mut i: usize = 0;
    while i < buf.len()
        invariant
            i <= buf@.len(),
            out@ == binary_text(buf@.subrange(0, i as int)),
            forall|k: int| 0 <= k < out@.len() ==> out@[k] < 0x80,
        decreases buf@.len() - i,
    {
        let b = buf[i];
        let ghost before = out@;
        let mut j: u8 = 0;
        while j < 8
            invariant
                j <= 8,
                b == buf@[i as int],
                out@ == before + byte_digits(b).subrange(0, j as int),
                forall|k: int| 0 <= k < out@.len() ==> out@[k] < 0x80,
            decreases 8 - j,
        {
            let bit = (b >> (7 - j)) & 1;
            if bit == 1 {
                out.push(0x31);
            } else {
                out.push(0x30);
            }
            assert(out@ == before + byte_digits(b).subrange(0, j + 1));
            j = j + 1;
        }
        out.push(0x20);
        assert(buf@.subrange(0, i + 1).drop_last() == buf@.subrange(0, i as int));
        assert(byte_digits(b).subrange(0, 8) == byte_digits(b));
        i = i + 1;
    }
    assert(buf@.subrange(0, buf@.len() as int) == buf@);
    proof {
        lemma_ascii_valid_utf8(out@);
    }
    text_from_bytes(out.as_slice())
}

/// A run of ASCII bytes is valid UTF-8.
pub proof fn lemma_ascii_valid_utf8(b: Seq<u8>)
    requires
        forall|k: int| 0 <= k < b.len() ==> b[k] < 0x80,
    ensures
        vstd::utf8::valid_utf8(b),
    decreases b.len(),
{
    if b.len() > 0 {
        assert(vstd::utf8::pop_first_scalar(b) == b.drop_first());
        lemma_ascii_valid_utf8(b.drop_first());
    }
}

} // verus!
