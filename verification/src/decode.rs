use vstd::prelude::*;

use crate::state::{group_of, kk_of, n_of, nnn_of, x_of, y_of};

verus! {

/// The instruction family (top nibble).
pub fn op_group(op: u16) -> (r: u16)
    ensures
        r as int == group_of(op),
        r < 16,
{
    assert(op >> 12u16 == op / 4096 && op >> 12u16 < 16) by (bit_vector);
    op >> 12
}

/// The `x` register operand.
pub fn op_x(op: u16) -> (r: usize)
    ensures
        r as int == x_of(op),
        r < 16,
{
    assert((op & 0x0F00u16) >> 8u16 == (op / 256) % 16) by (bit_vector);
    ((op & 0x0F00) >> 8) as usize
}

/// The `y` register operand.
pub fn op_y(op: u16) -> (r: usize)
    ensures
        r as int == y_of(op),
        r < 16,
{
    assert((op & 0x00F0u16) >> 4u16 == (op / 16) % 16) by (bit_vector);
    ((op & 0x00F0) >> 4) as usize
}

/// The low nibble.
pub fn op_n(op: u16) -> (r: u16)
    ensures
        r as int == n_of(op),
        r < 16,
{
    assert(op & 0x000Fu16 == op % 16) by (bit_vector);
    op & 0x000F
}

/// The low byte.
pub fn op_kk(op: u16) -> (r: u16)
    ensures
        r as int == kk_of(op),
        r < 256,
{
    assert(op & 0x00FFu16 == op % 256) by (bit_vector);
    op & 0x00FF
}

/// The 12-bit address.
pub fn op_nnn(op: u16) -> (r: u16)
    ensures
        r as int == nnn_of(op),
        r < 4096,
{
    assert(op & 0x0FFFu16 == op % 4096) by (bit_vector);
    op & 0x0FFF
}

} // verus!
