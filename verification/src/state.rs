use vstd::prelude::*;

use crate::bytes::be_word;

verus! {

/// Number of general-purpose registers `V0`..`VF`.
pub const NUM_REGS: usize = 16;

/// Depth of the call stack.
pub const STACK_DEPTH: usize = 16;

/// Size of main memory in bytes.
pub const MEM_SIZE: usize = 4096;

/// Screen width in pixels.
pub const WIDTH: usize = 64;

/// Screen height in pixels.
pub const HEIGHT: usize = 32;

/// Number of pixels on the screen; the frame buffer holds one byte per pixel.
pub const SCREEN_SIZE: usize = 2048;

/// Number of keys on the hexadecimal keypad.
pub const NUM_KEYS: usize = 16;

/// Where programs are loaded and where execution starts.
pub const PROGRAM_START: u16 = 0x200;

/// The mathematical picture of a machine: every register and every buffer
/// as plain values and sequences.
#[verifier::ext_equal]
pub struct CpuState {
    pub opcode: u16,
    pub v: Seq<u8>,
    pub i: u16,
    pub sp: u8,
    pub stack: Seq<u16>,
    pub graphics: Seq<u8>,
    pub pc: u16,
    pub delay: u8,
    pub sound: u8,
    pub keys: Seq<bool>,
    pub mem: Seq<u8>,
}

impl CpuState {
    /// Every buffer has the length of the hardware it stands for.
    pub open spec fn wf(self) -> bool {
        &&& self.v.len() == NUM_REGS
        &&& self.stack.len() == STACK_DEPTH
        &&& self.graphics.len() == SCREEN_SIZE
        &&& self.keys.len() == NUM_KEYS
        &&& self.mem.len() == MEM_SIZE
    }

    /// The instruction word at the program counter (big-endian).
    pub open spec fn fetch(self) -> u16 {
        be_word(self.mem[self.pc as int], self.mem[self.pc as int + 1])
    }

    /// The state once the instruction word has been latched and the program
    /// counter has moved past it.
    pub open spec fn fetched(self) -> CpuState {
        CpuState { opcode: self.fetch(), pc: (self.pc + 2) as u16, ..self }
    }

    /// Every pixel of the frame buffer is off (0) or on (1).
    pub open spec fn screen_is_binary(self) -> bool {
        forall|k: int| 0 <= k < self.graphics.len() ==> #[trigger] self.graphics[k] <= 1
    }
}

/// The top nibble of an instruction: which instruction family it belongs to.
pub open spec fn group_of(op: u16) -> int {
    op as int / 4096
}

/// The `x` register operand (bits 8..12).
pub open spec fn x_of(op: u16) -> int {
    (op as int / 256) % 16
}

/// The `y` register operand (bits 4..8).
pub open spec fn y_of(op: u16) -> int {
    (op as int / 16) % 16
}

/// The low nibble `n`.
pub open spec fn n_of(op: u16) -> int {
    op as int % 16
}

/// The low byte `kk`.
pub open spec fn kk_of(op: u16) -> int {
    op as int % 256
}

/// The 12-bit address `nnn`.
pub open spec fn nnn_of(op: u16) -> int {
    op as int % 4096
}

} // verus!
