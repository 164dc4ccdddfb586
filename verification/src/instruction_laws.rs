use vstd::prelude::*;

use crate::bytes::be_word;
use crate::semantics::{last_pressed, StepError};
use crate::state::{group_of, kk_of, n_of, nnn_of, x_of, y_of, CpuState};

verus! {

// Each law below says what one cycle does, in terms of the two bytes at the
// program counter (`hi`, `lo`) and the machine before the cycle: for an
// instruction `hi lo`, the family is `hi / 16`, `x` is `hi % 16`, `y` is
// `lo / 16`, `n` is `lo % 16`, `kk` is `lo` and `nnn` is `(hi % 16) * 256 + lo`.

/// The instruction word and its fields, read off the two bytes that hold it.
pub(crate) proof fn lemma_word_fields(hi: u8, lo: u8)
    ensures
        be_word(hi, lo) as int == hi * 256 + lo,
        group_of(be_word(hi, lo)) == hi / 16,
        x_of(be_word(hi, lo)) == hi % 16,
        y_of(be_word(hi, lo)) == lo / 16,
        n_of(be_word(hi, lo)) == lo % 16,
        kk_of(be_word(hi, lo)) == lo,
        nnn_of(be_word(hi, lo)) == (hi % 16) * 256 + lo,
{
}

/// A cycle on an `8xyn` word is the register operation of the fetched state.
proof fn lemma_step_alu(s: CpuState, rnd: u8)
    requires
        s.wf(),
        s.can_step(),
        s.mem[s.pc as int] / 16 == 0x8,
    ensures
        s.fetched() == advanced(s, 2),
        group_of(s.fetched().opcode) == 8,
        x_of(s.fetched().opcode) == s.mem[s.pc as int] % 16,
        y_of(s.fetched().opcode) == s.mem[s.pc + 1] / 16,
        n_of(s.fetched().opcode) == s.mem[s.pc + 1] % 16,
        s.step(rnd) == match s.fetched().exec_alu() {
            Some(n) => (n, Ok::<(), StepError>(())),
            None => (
                s.fetched(),
                Err::<(), StepError>(StepError::InvalidOpcode(s.fetched().opcode)),
            ),
        },
{
    lemma_word_fields(s.mem[s.pc as int], s.mem[s.pc + 1]);
}

/// The state after a cycle that only latched the instruction word and moved
/// the program counter by `adv`.
pub open spec fn advanced(s: CpuState, adv: int) -> CpuState {
    CpuState {
        opcode: (s.mem[s.pc as int] * 256 + s.mem[s.pc + 1]) as u16,
        pc: (s.pc + adv) as u16,
        ..s
    }
}

/// `3xkk` skips the next instruction exactly when `Vx == kk`.
pub proof fn law_skip_if_equal_byte(s: CpuState, rnd: u8)
    requires
        s.wf(),
        s.can_step(),
        s.mem[s.pc as int] / 16 == 0x3,
    ensures
        ({
            let x = (s.mem[s.pc as int] % 16) as int;
            let kk = s.mem[s.pc + 1];
            let adv: int = if s.v[x] == kk { 4 } else { 2 };
            &&& s.step(rnd) == (advanced(s, adv), Ok::<(), StepError>(()))
            &&& s.step(rnd).0.pc == s.pc + adv
        }),
{
    lemma_word_fields(s.mem[s.pc as int], s.mem[s.pc + 1]);
}

/// `4xkk` skips the next instruction exactly when `Vx != kk`.
pub proof fn law_skip_if_different_byte(s: CpuState, rnd: u8)
    requires
        s.wf(),
        s.can_step(),
        s.mem[s.pc as int] / 16 == 0x4,
    ensures
        ({
            let x = (s.mem[s.pc as int] % 16) as int;
            let kk = s.mem[s.pc + 1];
            let adv: int = if s.v[x] != kk { 4 } else { 2 };
            &&& s.step(rnd) == (advanced(s, adv), Ok::<(), StepError>(()))
            &&& s.step(rnd).0.pc == s.pc + adv
        }),
{
    lemma_word_fields(s.mem[s.pc as int], s.mem[s.pc + 1]);
}

/// `5xy?` skips the next instruction exactly when `Vx == Vy`.
pub proof fn law_skip_if_equal_registers(s: CpuState, rnd: u8)
    requires
        s.wf(),
        s.can_step(),
        s.mem[s.pc as int] / 16 == 0x5,
    ensures
        ({
            let x = (s.mem[s.pc as int] % 16) as int;
            let y = (s.mem[s.pc + 1] / 16) as int;
            let adv: int = if s.v[x] == s.v[y] { 4 } else { 2 };
            &&& s.step(rnd) == (advanced(s, adv), Ok::<(), StepError>(()))
            &&& s.step(rnd).0.pc == s.pc + adv
        }),
{
    lemma_word_fields(s.mem[s.pc as int], s.mem[s.pc + 1]);
}

/// `9xy0` skips the next instruction exactly when `Vx != Vy`; `9xyn` with
/// `n != 0` is no instruction.
pub proof fn law_skip_if_different_registers(s: CpuState, rnd: u8)
    requires
        s.wf(),
        s.can_step(),
        s.mem[s.pc as int] / 16 == 0x9,
    ensures
        ({
            let x = (s.mem[s.pc as int] % 16) as int;
            let y = (s.mem[s.pc + 1] / 16) as int;
            let adv: int = if s.v[x] != s.v[y] { 4 } else { 2 };
            &&& s.mem[s.pc + 1] % 16 == 0 ==> s.step(rnd) == (
                advanced(s, adv),
                Ok::<(), StepError>(()),
            )
            &&& s.mem[s.pc + 1] % 16 == 0 ==> s.step(rnd).0.pc == s.pc + adv
            &&& s.mem[s.pc + 1] % 16 != 0 ==> s.step(rnd) == (
                advanced(s, 2),
                Err::<(), StepError>(StepError::InvalidOpcode(advanced(s, 2).opcode)),
            )
        }),
{
    lemma_word_fields(s.mem[s.pc as int], s.mem[s.pc + 1]);
}

/// `Ex9E` skips exactly when the key named by `Vx` is held, `ExA1` exactly
/// when it is not; other `Exkk` are no instruction.
pub proof fn law_key_skips(s: CpuState, rnd: u8)
    requires
        s.wf(),
        s.can_step(),
        s.mem[s.pc as int] / 16 == 0xE,
    ensures
        ({
            let x = (s.mem[s.pc as int] % 16) as int;
            let kk = s.mem[s.pc + 1];
            let held = s.keys[s.v[x] as int];
            &&& kk == 0x9E ==> s.step(rnd) == (
                advanced(s, if held { 4 } else { 2 }),
                Ok::<(), StepError>(()),
            )
            &&& kk == 0xA1 ==> s.step(rnd) == (
                advanced(s, if held { 2 } else { 4 }),
                Ok::<(), StepError>(()),
            )
            &&& kk != 0x9E && kk != 0xA1 ==> s.step(rnd) == (
                advanced(s, 2),
                Err::<(), StepError>(StepError::InvalidOpcode(advanced(s, 2).opcode)),
            )
        }),
{
    lemma_word_fields(s.mem[s.pc as int], s.mem[s.pc + 1]);
}

/// `1nnn` jumps to `nnn`.
pub proof fn law_jump(s: CpuState, rnd: u8)
    requires
        s.wf(),
        s.can_step(),
        s.mem[s.pc as int] / 16 == 0x1,
    ensures
        ({
            let nnn = (s.mem[s.pc as int] % 16) * 256 + s.mem[s.pc + 1];
            &&& s.step(rnd) == (CpuState { pc: nnn as u16, ..advanced(s, 2) }, Ok::<
                (),
                StepError,
            >(()))
            &&& s.step(rnd).0.pc == nnn
        }),
{
    lemma_word_fields(s.mem[s.pc as int], s.mem[s.pc + 1]);
}

/// `Bnnn` jumps to `V0 + nnn`.
pub proof fn law_jump_with_offset(s: CpuState, rnd: u8)
    requires
        s.wf(),
        s.can_step(),
        s.mem[s.pc as int] / 16 == 0xB,
    ensures
        ({
            let nnn = (s.mem[s.pc as int] % 16) * 256 + s.mem[s.pc + 1];
            &&& s.step(rnd) == (CpuState { pc: (s.v[0] + nnn) as u16, ..advanced(s, 2) }, Ok::<
                (),
                StepError,
            >(()))
            &&& s.step(rnd).0.pc == s.v[0] + nnn
        }),
{
    lemma_word_fields(s.mem[s.pc as int], s.mem[s.pc + 1]);
}

/// `2nnn` pushes the address of the next instruction one slot above the
/// stack pointer and jumps to `nnn`.
pub proof fn law_call(s: CpuState, rnd: u8)
    requires
        s.wf(),
        s.can_step(),
        s.mem[s.pc as int] / 16 == 0x2,
    ensures
        ({
            let nnn = (s.mem[s.pc as int] % 16) * 256 + s.mem[s.pc + 1];
            let n = s.step(rnd).0;
            &&& s.step(rnd).1 is Ok
            &&& n.sp == s.sp + 1
            &&& n.stack[s.sp + 1] == s.pc + 2
            &&& forall|k: int| 0 <= k < 16 && k != s.sp + 1 ==> #[trigger] n.stack[k] == s.stack[k]
            &&& n.pc == nnn
            &&& n == (CpuState { sp: n.sp, stack: n.stack, pc: n.pc, ..advanced(s, 2) })
        }),
{
    lemma_word_fields(s.mem[s.pc as int], s.mem[s.pc + 1]);
}

/// `00EE` returns to the address on top of the stack and pops it; `00E0`
/// clears the screen; any other `0nnn` is no instruction.
pub proof fn law_system(s: CpuState, rnd: u8)
    requires
        s.wf(),
        s.can_step(),
        s.mem[s.pc as int] / 16 == 0x0,
    ensures
        ({
            let hi = s.mem[s.pc as int];
            let lo = s.mem[s.pc + 1];
            let n = s.step(rnd).0;
            &&& hi == 0 && lo == 0xEE ==> s.step(rnd).1 is Ok && n.pc == s.stack[(s.sp % 16) as int]
                && n.sp == s.sp - 1 && n == (CpuState {
                pc: n.pc,
                sp: n.sp,
                ..advanced(s, 2)
            })
            &&& hi == 0 && lo == 0xE0 ==> s.step(rnd).1 is Ok && (forall|k: int|
                0 <= k < 2048 ==> #[trigger] n.graphics[k] == 0) && n.graphics.len() == 2048
                && n == (CpuState { graphics: n.graphics, ..advanced(s, 2) })
            &&& !(hi == 0 && (lo == 0xEE || lo == 0xE0)) ==> s.step(rnd) == (
                advanced(s, 2),
                Err::<(), StepError>(StepError::InvalidOpcode(advanced(s, 2).opcode)),
            )
        }),
{
    lemma_word_fields(s.mem[s.pc as int], s.mem[s.pc + 1]);
}

/// `6xkk` loads `kk` into `Vx`; `7xkk` adds `kk` to `Vx` modulo 256 and
/// leaves `VF` alone.
pub proof fn law_load_and_add_byte(s: CpuState, rnd: u8)
    requires
        s.wf(),
        s.can_step(),
        s.mem[s.pc as int] / 16 == 0x6 || s.mem[s.pc as int] / 16 == 0x7,
    ensures
        ({
            let x = (s.mem[s.pc as int] % 16) as int;
            let kk = s.mem[s.pc + 1];
            let n = s.step(rnd).0;
            &&& s.step(rnd).1 is Ok
            &&& s.mem[s.pc as int] / 16 == 0x6 ==> n.v[x] == kk
            &&& s.mem[s.pc as int] / 16 == 0x7 ==> n.v[x] == (s.v[x] + kk) % 256
            &&& forall|k: int| 0 <= k < 16 && k != x ==> #[trigger] n.v[k] == s.v[k]
            &&& n == (CpuState { v: n.v, ..advanced(s, 2) })
        }),
{
    lemma_word_fields(s.mem[s.pc as int], s.mem[s.pc + 1]);
}

/// `Annn` loads `nnn` into `I`.
pub proof fn law_load_index(s: CpuState, rnd: u8)
    requires
        s.wf(),
        s.can_step(),
        s.mem[s.pc as int] / 16 == 0xA,
    ensures
        ({
            let nnn = (s.mem[s.pc as int] % 16) * 256 + s.mem[s.pc + 1];
            &&& s.step(rnd) == (CpuState { i: nnn as u16, ..advanced(s, 2) }, Ok::<
                (),
                StepError,
            >(()))
            &&& s.step(rnd).0.i == nnn
        }),
{
    lemma_word_fields(s.mem[s.pc as int], s.mem[s.pc + 1]);
}

/// `Cxkk` puts the random byte masked with `kk` in `Vx`.
pub proof fn law_random(s: CpuState, rnd: u8)
    requires
        s.wf(),
        s.can_step(),
        s.mem[s.pc as int] / 16 == 0xC,
    ensures
        ({
            let x = (s.mem[s.pc as int] % 16) as int;
            let kk = s.mem[s.pc + 1];
            let n = s.step(rnd).0;
            &&& s.step(rnd).1 is Ok
            &&& n.v[x] == rnd & kk
            &&& n.v[x] <= kk
            &&& forall|k: int| 0 <= k < 16 && k != x ==> #[trigger] n.v[k] == s.v[k]
            &&& n == (CpuState { v: n.v, ..advanced(s, 2) })
        }),
{
    lemma_word_fields(s.mem[s.pc as int], s.mem[s.pc + 1]);
    let kk = s.mem[s.pc + 1];
    assert(rnd & kk <= kk) by (bit_vector);
}

/// `8xy0` copies `Vy` into `Vx`.
pub proof fn law_alu_copy(s: CpuState, rnd: u8)
    requires
        s.wf(),
        s.can_step(),
        s.mem[s.pc as int] / 16 == 0x8,
        s.mem[s.pc + 1] % 16 == 0,
    ensures
        ({
            let x = (s.mem[s.pc as int] % 16) as int;
            let y = (s.mem[s.pc + 1] / 16) as int;
            let vx = s.v[x] as int;
            let vy = s.v[y] as int;
            let n = s.step(rnd).0;
            &&& s.step(rnd).1 is Ok
            &&& n.v[x] == vy
            &&& forall|k: int| 0 <= k < 16 && k != x ==> #[trigger] n.v[k] == s.v[k]
            &&& n == (CpuState { v: n.v, ..advanced(s, 2) })
        }),
{
    lemma_step_alu(s, rnd);
}

/// `8xy1` puts `Vx | Vy` in `Vx`.
pub proof fn law_alu_or(s: CpuState, rnd: u8)
    requires
        s.wf(),
        s.can_step(),
        s.mem[s.pc as int] / 16 == 0x8,
        s.mem[s.pc + 1] % 16 == 1,
    ensures
        ({
            let x = (s.mem[s.pc as int] % 16) as int;
            let y = (s.mem[s.pc + 1] / 16) as int;
            let vx = s.v[x] as int;
            let vy = s.v[y] as int;
            let n = s.step(rnd).0;
            &&& s.step(rnd).1 is Ok
            &&& n.v[x] == s.v[x] | s.v[y]
            &&& forall|k: int| 0 <= k < 16 && k != x ==> #[trigger] n.v[k] == s.v[k]
            &&& n == (CpuState { v: n.v, ..advanced(s, 2) })
        }),
{
    lemma_step_alu(s, rnd);
}

/// `8xy2` puts `Vx & Vy` in `Vx`.
pub proof fn law_alu_and(s: CpuState, rnd: u8)
    requires
        s.wf(),
        s.can_step(),
        s.mem[s.pc as int] / 16 == 0x8,
        s.mem[s.pc + 1] % 16 == 2,
    ensures
        ({
            let x = (s.mem[s.pc as int] % 16) as int;
            let y = (s.mem[s.pc + 1] / 16) as int;
            let vx = s.v[x] as int;
            let vy = s.v[y] as int;
            let n = s.step(rnd).0;
            &&& s.step(rnd).1 is Ok
            &&& n.v[x] == s.v[x] & s.v[y]
            &&& forall|k: int| 0 <= k < 16 && k != x ==> #[trigger] n.v[k] == s.v[k]
            &&& n == (CpuState { v: n.v, ..advanced(s, 2) })
        }),
{
    lemma_step_alu(s, rnd);
}

/// `8xy3` puts `Vx ^ Vy` in `Vx`.
pub proof fn law_alu_xor(s: CpuState, rnd: u8)
    requires
        s.wf(),
        s.can_step(),
        s.mem[s.pc as int] / 16 == 0x8,
        s.mem[s.pc + 1] % 16 == 3,
    ensures
        ({
            let x = (s.mem[s.pc as int] % 16) as int;
            let y = (s.mem[s.pc + 1] / 16) as int;
            let vx = s.v[x] as int;
            let vy = s.v[y] as int;
            let n = s.step(rnd).0;
            &&& s.step(rnd).1 is Ok
            &&& n.v[x] == s.v[x] ^ s.v[y]
            &&& forall|k: int| 0 <= k < 16 && k != x ==> #[trigger] n.v[k] == s.v[k]
            &&& n == (CpuState { v: n.v, ..advanced(s, 2) })
        }),
{
    lemma_step_alu(s, rnd);
}

/// `8xy4`: `VF` gets the carry of `Vx + Vy` (1 exactly when the sum exceeds
/// 255) and `Vx` the sum modulo 256. With neither operand `VF`, `VF * 256 + Vx`
/// is the full sum. The flag `f` is written to `VF` first and the result
/// is computed from the registers after that (`wx`, `wy`), so an operand that
/// is `VF` reads the flag.
pub proof fn law_alu_add(s: CpuState, rnd: u8)
    requires
        s.wf(),
        s.can_step(),
        s.mem[s.pc as int] / 16 == 0x8,
        s.mem[s.pc + 1] % 16 == 4,
    ensures
        ({
            let x = (s.mem[s.pc as int] % 16) as int;
            let y = (s.mem[s.pc + 1] / 16) as int;
            let vx = s.v[x] as int;
            let vy = s.v[y] as int;
            let f: int = (vx + vy) / 256;
            let wx = if x == 15 { f } else { vx };
            let wy = if y == 15 { f } else { vy };
            let n = s.step(rnd).0;
            &&& s.step(rnd).1 is Ok
            &&& n.v[x] == (wx + wy) % 256
            &&& x != 15 ==> n.v[15] == f
            &&& forall|k: int| 0 <= k < 15 && k != x ==> #[trigger] n.v[k] == s.v[k]
            &&& n == (CpuState { v: n.v, ..advanced(s, 2) })
        }),
{
    lemma_step_alu(s, rnd);
}

/// `8xy5`: `VF` gets 1 exactly when `Vx > Vy`, and `Vx` gets `Vx - Vy`
/// modulo 256. The flag `f` is written to `VF` first and the result
/// is computed from the registers after that (`wx`, `wy`), so an operand that
/// is `VF` reads the flag.
pub proof fn law_alu_sub(s: CpuState, rnd: u8)
    requires
        s.wf(),
        s.can_step(),
        s.mem[s.pc as int] / 16 == 0x8,
        s.mem[s.pc + 1] % 16 == 5,
    ensures
        ({
            let x = (s.mem[s.pc as int] % 16) as int;
            let y = (s.mem[s.pc + 1] / 16) as int;
            let vx = s.v[x] as int;
            let vy = s.v[y] as int;
            let f: int = if vx > vy { 1 } else { 0 };
            let wx = if x == 15 { f } else { vx };
            let wy = if y == 15 { f } else { vy };
            let n = s.step(rnd).0;
            &&& s.step(rnd).1 is Ok
            &&& n.v[x] == (if wx >= wy { wx - wy } else { wx - wy + 256 })
            &&& x != 15 ==> n.v[15] == f
            &&& forall|k: int| 0 <= k < 15 && k != x ==> #[trigger] n.v[k] == s.v[k]
            &&& n == (CpuState { v: n.v, ..advanced(s, 2) })
        }),
{
    lemma_step_alu(s, rnd);
}

/// `8xy7`: `VF` gets 1 exactly when `Vy > Vx`, and `Vx` gets `Vy - Vx`
/// modulo 256. The flag `f` is written to `VF` first and the result
/// is computed from the registers after that (`wx`, `wy`), so an operand that
/// is `VF` reads the flag.
pub proof fn law_alu_subn(s: CpuState, rnd: u8)
    requires
        s.wf(),
        s.can_step(),
        s.mem[s.pc as int] / 16 == 0x8,
        s.mem[s.pc + 1] % 16 == 7,
    ensures
        ({
            let x = (s.mem[s.pc as int] % 16) as int;
            let y = (s.mem[s.pc + 1] / 16) as int;
            let vx = s.v[x] as int;
            let vy = s.v[y] as int;
            let f: int = if vy > vx { 1 } else { 0 };
            let wx = if x == 15 { f } else { vx };
            let wy = if y == 15 { f } else { vy };
            let n = s.step(rnd).0;
            &&& s.step(rnd).1 is Ok
            &&& n.v[x] == (if wy >= wx { wy - wx } else { wy - wx + 256 })
            &&& x != 15 ==> n.v[15] == f
            &&& forall|k: int| 0 <= k < 15 && k != x ==> #[trigger] n.v[k] == s.v[k]
            &&& n == (CpuState { v: n.v, ..advanced(s, 2) })
        }),
{
    lemma_step_alu(s, rnd);
}

/// `8xy6`: `VF` gets the low bit of `Vx`, and `Vx` is halved, rounding
/// down (so it is below 128). The flag `f` is written to `VF` first and the result
/// is computed from the registers after that (`wx`, `wy`), so an operand that
/// is `VF` reads the flag.
pub proof fn law_alu_shift_right(s: CpuState, rnd: u8)
    requires
        s.wf(),
        s.can_step(),
        s.mem[s.pc as int] / 16 == 0x8,
        s.mem[s.pc + 1] % 16 == 6,
    ensures
        ({
            let x = (s.mem[s.pc as int] % 16) as int;
            let y = (s.mem[s.pc + 1] / 16) as int;
            let vx = s.v[x] as int;
            let vy = s.v[y] as int;
            let f: int = vx % 2;
            let wx = if x == 15 { f } else { vx };
            let wy = if y == 15 { f } else { vy };
            let n = s.step(rnd).0;
            &&& s.step(rnd).1 is Ok
            &&& n.v[x] == wx / 2
            &&& x != 15 ==> n.v[15] == f
            &&& forall|k: int| 0 <= k < 15 && k != x ==> #[trigger] n.v[k] == s.v[k]
            &&& n == (CpuState { v: n.v, ..advanced(s, 2) })
        }),
{
    lemma_step_alu(s, rnd);
}

/// `8xyE`: `VF` gets the high bit of `Vx`, and `Vx` is doubled modulo 256. The flag `f` is written to `VF` first and the result
/// is computed from the registers after that (`wx`, `wy`), so an operand that
/// is `VF` reads the flag.
pub proof fn law_alu_shift_left(s: CpuState, rnd: u8)
    requires
        s.wf(),
        s.can_step(),
        s.mem[s.pc as int] / 16 == 0x8,
        s.mem[s.pc + 1] % 16 == 0xE,
    ensures
        ({
            let x = (s.mem[s.pc as int] % 16) as int;
            let y = (s.mem[s.pc + 1] / 16) as int;
            let vx = s.v[x] as int;
            let vy = s.v[y] as int;
            let f: int = vx / 128;
            let wx = if x == 15 { f } else { vx };
            let wy = if y == 15 { f } else { vy };
            let n = s.step(rnd).0;
            &&& s.step(rnd).1 is Ok
            &&& n.v[x] == (wx * 2) % 256
            &&& x != 15 ==> n.v[15] == f
            &&& forall|k: int| 0 <= k < 15 && k != x ==> #[trigger] n.v[k] == s.v[k]
            &&& n == (CpuState { v: n.v, ..advanced(s, 2) })
        }),
{
    lemma_step_alu(s, rnd);
}

/// `8xyn` with `n` other than 0 to 7 and `E` is no instruction.
pub proof fn law_alu_invalid(s: CpuState, rnd: u8)
    requires
        s.wf(),
        s.can_step(),
        s.mem[s.pc as int] / 16 == 0x8,
        s.mem[s.pc + 1] % 16 > 7,
        s.mem[s.pc + 1] % 16 != 0xE,
    ensures
        s.step(rnd) == (
            advanced(s, 2),
            Err::<(), StepError>(StepError::InvalidOpcode(advanced(s, 2).opcode)),
        ),
{
    lemma_step_alu(s, rnd);
}

/// `Fx07` reads the delay timer into `Vx`; `Fx15` and `Fx18` set the delay
/// and sound timers from `Vx`.
pub proof fn law_timer_transfers(s: CpuState, rnd: u8)
    requires
        s.wf(),
        s.can_step(),
        s.mem[s.pc as int] / 16 == 0xF,
        s.mem[s.pc + 1] == 0x07 || s.mem[s.pc + 1] == 0x15 || s.mem[s.pc + 1] == 0x18,
    ensures
        ({
            let x = (s.mem[s.pc as int] % 16) as int;
            let kk = s.mem[s.pc + 1];
            let n = s.step(rnd).0;
            &&& s.step(rnd).1 is Ok
            &&& kk == 0x07 ==> n == (CpuState { v: s.v.update(x, s.delay), ..advanced(s, 2) })
            &&& kk == 0x15 ==> n == (CpuState { delay: s.v[x], ..advanced(s, 2) })
            &&& kk == 0x18 ==> n == (CpuState { sound: s.v[x], ..advanced(s, 2) })
        }),
{
    lemma_word_fields(s.mem[s.pc as int], s.mem[s.pc + 1]);
}

/// `Fx1E` adds `Vx` to `I`, and changes nothing else.
pub proof fn law_add_to_index(s: CpuState, rnd: u8)
    requires
        s.wf(),
        s.can_step(),
        s.mem[s.pc as int] / 16 == 0xF,
        s.mem[s.pc + 1] == 0x1E,
    ensures
        ({
            let x = (s.mem[s.pc as int] % 16) as int;
            &&& s.step(rnd).0.i == s.i + s.v[x]
            &&& s.step(rnd) == (CpuState { i: (s.i + s.v[x]) as u16, ..advanced(s, 2) }, Ok::<
                (),
                StepError,
            >(()))
        }),
{
    lemma_word_fields(s.mem[s.pc as int], s.mem[s.pc + 1]);
}

/// `Fx29` points `I` at the five-byte glyph of digit `Vx`: `I = 5 * Vx`.
pub proof fn law_glyph_address(s: CpuState, rnd: u8)
    requires
        s.wf(),
        s.can_step(),
        s.mem[s.pc as int] / 16 == 0xF,
        s.mem[s.pc + 1] == 0x29,
    ensures
        ({
            let x = (s.mem[s.pc as int] % 16) as int;
            &&& s.step(rnd).0.i == 5 * s.v[x]
            &&& s.step(rnd) == (CpuState { i: (5 * s.v[x]) as u16, ..advanced(s, 2) }, Ok::<
                (),
                StepError,
            >(()))
        }),
{
    lemma_word_fields(s.mem[s.pc as int], s.mem[s.pc + 1]);
}

/// `Fx33` writes the hundreds, tens and units digits of `Vx` to `I`, `I + 1`
/// and `I + 2`, and no other byte.
pub proof fn law_decimal_digits(s: CpuState, rnd: u8)
    requires
        s.wf(),
        s.can_step(),
        s.mem[s.pc as int] / 16 == 0xF,
        s.mem[s.pc + 1] == 0x33,
    ensures
        ({
            let x = (s.mem[s.pc as int] % 16) as int;
            let vx = s.v[x] as int;
            let i = s.i as int;
            let n = s.step(rnd).0;
            &&& s.step(rnd).1 is Ok
            &&& n.mem[i] == vx / 100
            &&& n.mem[i + 1] == (vx / 10) % 10
            &&& n.mem[i + 2] == vx % 10
            &&& n.mem.len() == s.mem.len()
            &&& forall|a: int|
                0 <= a < s.mem.len() && (a < i || a > i + 2) ==> #[trigger] n.mem[a] == s.mem[a]
            &&& n == (CpuState { mem: n.mem, ..advanced(s, 2) })
        }),
{
    lemma_word_fields(s.mem[s.pc as int], s.mem[s.pc + 1]);
}

/// `Fx55` copies `V0` through `Vx` to memory at `I` onwards, and no other byte.
pub proof fn law_store_registers(s: CpuState, rnd: u8)
    requires
        s.wf(),
        s.can_step(),
        s.mem[s.pc as int] / 16 == 0xF,
        s.mem[s.pc + 1] == 0x55,
    ensures
        ({
            let x = (s.mem[s.pc as int] % 16) as int;
            let i = s.i as int;
            let n = s.step(rnd).0;
            &&& s.step(rnd).1 is Ok
            &&& forall|j: int| 0 <= j <= x ==> #[trigger] n.mem[i + j] == s.v[j]
            &&& n.mem.len() == s.mem.len()
            &&& forall|a: int|
                0 <= a < s.mem.len() && (a < i || a > i + x) ==> #[trigger] n.mem[a] == s.mem[a]
            &&& n == (CpuState { mem: n.mem, ..advanced(s, 2) })
        }),
{
    lemma_word_fields(s.mem[s.pc as int], s.mem[s.pc + 1]);
}

/// `Fx65` copies memory at `I` onwards into `V0` through `Vx`, and no other
/// register.
pub proof fn law_load_registers(s: CpuState, rnd: u8)
    requires
        s.wf(),
        s.can_step(),
        s.mem[s.pc as int] / 16 == 0xF,
        s.mem[s.pc + 1] == 0x65,
    ensures
        ({
            let x = (s.mem[s.pc as int] % 16) as int;
            let i = s.i as int;
            let n = s.step(rnd).0;
            &&& s.step(rnd).1 is Ok
            &&& forall|j: int| 0 <= j <= x ==> #[trigger] n.v[j] == s.mem[i + j]
            &&& n.v.len() == 16
            &&& forall|j: int| x < j < 16 ==> #[trigger] n.v[j] == s.v[j]
            &&& n == (CpuState { v: n.v, ..advanced(s, 2) })
        }),
{
    lemma_word_fields(s.mem[s.pc as int], s.mem[s.pc + 1]);
}

/// `Fx0A` waits for a key. With no key held the cycle changes nothing but
/// the latched word (the next cycle runs `Fx0A` again); otherwise `Vx` gets
/// the highest-numbered held key and execution moves on.
pub proof fn law_wait_for_key(s: CpuState, rnd: u8)
    requires
        s.wf(),
        s.can_step(),
        s.mem[s.pc as int] / 16 == 0xF,
        s.mem[s.pc + 1] == 0x0A,
    ensures
        ({
            let x = (s.mem[s.pc as int] % 16) as int;
            let n = s.step(rnd).0;
            &&& s.step(rnd).1 is Ok
            &&& (forall|k: int| 0 <= k < 16 ==> !#[trigger] s.keys[k]) ==> n == advanced(s, 0)
            &&& (exists|k: int| 0 <= k < 16 && #[trigger] s.keys[k]) ==> {
                &&& n.v[x] < 16
                &&& s.keys[n.v[x] as int]
                &&& forall|k: int| n.v[x] < k < 16 ==> !#[trigger] s.keys[k]
                &&& n == (CpuState { v: s.v.update(x, n.v[x]), ..advanced(s, 2) })
            }
        }),
{
    lemma_word_fields(s.mem[s.pc as int], s.mem[s.pc + 1]);
    let x = (s.mem[s.pc as int] % 16) as int;
    if exists|k: int| 0 <= k < 16 && #[trigger] s.keys[k] {
        lemma_last_pressed_highest(s.keys, s.v[x], 16);
    }
}

/// When some key among the first `n` is held, `last_pressed` is the highest
/// of them.
proof fn lemma_last_pressed_highest(keys: Seq<bool>, old: u8, n: nat)
    requires
        n <= keys.len(),
        n <= 256,
        exists|k: int| 0 <= k < n && #[trigger] keys[k],
    ensures
        last_pressed(keys, old, n) < n,
        keys[last_pressed(keys, old, n) as int],
        forall|k: int| last_pressed(keys, old, n) < k < n ==> !#[trigger] keys[k],
    decreases n,
{
    if !keys[n - 1] {
        let k = choose|k: int| 0 <= k < n && #[trigger] keys[k];
        assert(k < n - 1);
        lemma_last_pressed_highest(keys, old, (n - 1) as nat);
    }
}

/// `Fxkk` with `kk` none of `07 0A 15 18 1E 29 33 55 65` is no instruction.
pub proof fn law_misc_invalid(s: CpuState, rnd: u8)
    requires
        s.wf(),
        s.can_step(),
        s.mem[s.pc as int] / 16 == 0xF,
        ({
            let kk = s.mem[s.pc + 1];
            kk != 0x07 && kk != 0x0A && kk != 0x15 && kk != 0x18 && kk != 0x1E && kk != 0x29
                && kk != 0x33 && kk != 0x55 && kk != 0x65
        }),
    ensures
        s.step(rnd) == (
            advanced(s, 2),
            Err::<(), StepError>(StepError::InvalidOpcode(advanced(s, 2).opcode)),
        ),
{
    lemma_word_fields(s.mem[s.pc as int], s.mem[s.pc + 1]);
}

/// A cycle can run exactly when the instruction's two bytes lie in memory
/// and the instruction they encode stays inside the machine: a return needs
/// a non-empty stack, a call a free stack slot (the stack pointer below 15),
/// a draw of `n > 0` rows needs `I + n <= 4096`, a key skip needs `Vx < 16`,
/// `Fx1E` needs `I + Vx <= 0xFFFF`, `Fx29` needs `5 * Vx <= 255`, `Fx33`
/// needs `I + 2 < 4096`, and `Fx55` / `Fx65` need `I + x < 4096`.
pub proof fn law_can_step(s: CpuState)
    requires
        s.wf(),
    ensures
        s.can_step() == ({
            let hi = s.mem[s.pc as int] as int;
            let lo = s.mem[s.pc + 1] as int;
            let g = hi / 16;
            let x = hi % 16;
            let vx = s.v[x] as int;
            let i = s.i as int;
            &&& s.pc + 1 < 4096
            &&& hi == 0 && lo == 0xEE ==> s.sp > 0
            &&& g == 2 ==> s.sp < 15
            &&& g == 0xD && lo % 16 > 0 ==> i + lo % 16 <= 4096
            &&& g == 0xE && (lo == 0x9E || lo == 0xA1) ==> vx < 16
            &&& g == 0xF && lo == 0x1E ==> i + vx <= 0xFFFF
            &&& g == 0xF && lo == 0x29 ==> 5 * vx <= 255
            &&& g == 0xF && lo == 0x33 ==> i + 2 < 4096
            &&& g == 0xF && (lo == 0x55 || lo == 0x65) ==> i + x < 4096
        }),
{
    if s.pc + 1 < 4096 {
        lemma_word_fields(s.mem[s.pc as int], s.mem[s.pc + 1]);
    }
}

} // verus!
