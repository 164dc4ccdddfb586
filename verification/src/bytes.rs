use vstd::prelude::*;

verus! {

/// The big-endian 16-bit value whose high byte is `hi` and low byte is `lo`.
pub open spec fn be_word(hi: u8, lo: u8) -> u16 {
    (hi as int * 256 + lo as int) as u16
}

/// Reads the big-endian 16-bit word stored at `buf[address]` and `buf[address + 1]`.
pub fn u16_from_u8(buf: &[u8], address: u16) -> (num: u16)
    requires
        address < u16::MAX,
        address as int + 1 < buf@.len(),
    ensures
        num == be_word(buf@[address as int], buf@[address as int + 1]),
        num as int == buf@[address as int] as int * 256 + buf@[address as int + 1] as int,
{
    let hi = buf[address as usize];
    let lo = buf[(address + 1) as usize];
    let mut num: u16 = (hi as u16) << 8;
    assert(((hi as u16) << 8) == hi as int * 256) by (bit_vector);
    num += lo as u16;
    num
}

} // verus!
