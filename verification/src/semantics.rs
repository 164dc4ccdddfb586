use vstd::prelude::*;

use crate::state::{
    group_of, kk_of, n_of, nnn_of, x_of, y_of, CpuState, HEIGHT, MEM_SIZE, NUM_KEYS, NUM_REGS,
    SCREEN_SIZE, WIDTH,
};

verus! {

/// Why a cycle could not execute its instruction.
#[derive(Debug, Clone, Copy, PartialEq, Eq, Structural)]
pub enum StepError {
    /// The fetched word encodes no instruction; it is carried along.
    InvalidOpcode(u16),
}

/// Bit `b` of a sprite row, counted from the most significant bit (b = 0)
/// to the least significant one (b = 7).
pub open spec fn sprite_bit(row: u8, b: u8) -> u8 {
    (row >> ((7 - b) as u8)) & 1u8
}

/// The highest-numbered key among the first `n` that is held down, or
/// `old` when none of them is.
pub open spec fn last_pressed(keys: Seq<bool>, old: u8, n: nat) -> u8
    decreases n,
{
    if n == 0 {
        old
    } else if keys[n - 1] {
        (n - 1) as u8
    } else {
        last_pressed(keys, old, (n - 1) as nat)
    }
}

/// `8xy4` on the register file: `VF` becomes the carry of `Vx + Vy`, then
/// `Vx` becomes `Vx + Vy` modulo 256 (read after the flag is written).
pub open spec fn add_regs(v: Seq<u8>, x: int, y: int) -> Seq<u8> {
    let w = v.update(15, if v[x] + v[y] > 255 { 1u8 } else { 0u8 });
    w.update(x, ((w[x] + w[y]) % 256) as u8)
}

/// `8xy5` on the register file: `VF` becomes 1 when `Vx > Vy`, else 0, then
/// `Vx` becomes `Vx - Vy` modulo 256 (read after the flag is written).
pub open spec fn sub_regs(v: Seq<u8>, x: int, y: int) -> Seq<u8> {
    let w = v.update(15, if v[x] > v[y] { 1u8 } else { 0u8 });
    w.update(x, ((w[x] - w[y] + 256) % 256) as u8)
}

/// `8xy7` on the register file: `VF` becomes 1 when `Vy > Vx`, else 0, then
/// `Vx` becomes `Vy - Vx` modulo 256 (read after the flag is written).
pub open spec fn subn_regs(v: Seq<u8>, x: int, y: int) -> Seq<u8> {
    let w = v.update(15, if v[y] > v[x] { 1u8 } else { 0u8 });
    w.update(x, ((w[y] - w[x] + 256) % 256) as u8)
}

/// `8xy6` on the register file: `VF` gets the low bit of `Vx`, then `Vx` is
/// halved (read after the flag is written).
pub open spec fn shr_regs(v: Seq<u8>, x: int) -> Seq<u8> {
    let w = v.update(15, v[x] % 2);
    w.update(x, w[x] / 2)
}

/// `8xyE` on the register file: `VF` gets the high bit of `Vx`, then `Vx` is
/// doubled modulo 256 (read after the flag is written).
pub open spec fn shl_regs(v: Seq<u8>, x: int) -> Seq<u8> {
    let w = v.update(15, v[x] / 128);
    w.update(x, ((w[x] * 2) % 256) as u8)
}

/// Some key of the keypad is held down.
pub open spec fn key_held(keys: Seq<bool>) -> bool {
    exists|k: int| 0 <= k < NUM_KEYS && #[trigger] keys[k]
}

impl CpuState {
    /// Moves the program counter past the next instruction when `cond` holds.
    pub open spec fn skip_if(self, cond: bool) -> CpuState {
        if cond {
            CpuState { pc: (self.pc + 2) as u16, ..self }
        } else {
            self
        }
    }

    /// Writes `val` into register `x`.
    pub open spec fn set_v(self, x: int, val: u8) -> CpuState {
        CpuState { v: self.v.update(x, val), ..self }
    }

    /// `00E0` (clear the screen) and `00EE` (return from a subroutine).
    pub open spec fn exec_system(self) -> Option<CpuState> {
        if self.opcode == 0x00E0 {
            Some(CpuState { graphics: Seq::new(SCREEN_SIZE as nat, |k: int| 0u8), ..self })
        } else if self.opcode == 0x00EE {
            Some(
                CpuState {
                    pc: self.stack[self.sp as int % 16],
                    sp: (self.sp - 1) as u8,
                    ..self
                },
            )
        } else {
            None
        }
    }

    /// `2nnn`: push the return address and jump to `nnn`.
    pub open spec fn exec_call(self) -> CpuState {
        let top = self.sp + 1;
        CpuState {
            sp: top as u8,
            stack: self.stack.update(top, self.pc),
            pc: nnn_of(self.opcode) as u16,
            ..self
        }
    }

    /// `8xyn`: register-to-register arithmetic and logic. The flag `VF` is
    /// written before the result, so an operand that is `VF` reads the new flag.
    pub open spec fn exec_alu(self) -> Option<CpuState> {
        let x = x_of(self.opcode);
        let y = y_of(self.opcode);
        let n = n_of(self.opcode);
        let vx = self.v[x];
        let vy = self.v[y];
        if n == 0 {
            Some(self.set_v(x, vy))
        } else if n == 1 {
            Some(self.set_v(x, vx | vy))
        } else if n == 2 {
            Some(self.set_v(x, vx & vy))
        } else if n == 3 {
            Some(self.set_v(x, vx ^ vy))
        } else if n == 4 {
            Some(CpuState { v: add_regs(self.v, x, y), ..self })
        } else if n == 5 {
            Some(CpuState { v: sub_regs(self.v, x, y), ..self })
        } else if n == 6 {
            Some(CpuState { v: shr_regs(self.v, x), ..self })
        } else if n == 7 {
            Some(CpuState { v: subn_regs(self.v, x, y), ..self })
        } else if n == 14 {
            Some(CpuState { v: shl_regs(self.v, x), ..self })
        } else {
            None
        }
    }

    /// One pixel of a sprite: bit `b` of sprite row `r` lands on screen row
    /// `py`; it is XORed onto the screen and `VF` records an erased pixel.
    pub open spec fn draw_pixel(self, xr: int, py: int, r: int, b: int) -> CpuState {
        let px = (self.v[xr] + b) % (WIDTH as int);
        let idx = py * (WIDTH as int) + px;
        let color = sprite_bit(self.mem[self.i + r], b as u8);
        let g = self.graphics[idx];
        CpuState {
            v: self.v.update(15, self.v[15] | (color & g)),
            graphics: self.graphics.update(idx, g ^ color),
            ..self
        }
    }

    /// The first `nb` pixels of sprite row `r`, drawn left to right.
    pub open spec fn draw_row(self, xr: int, py: int, r: int, nb: nat) -> CpuState
        decreases nb,
    {
        if nb == 0 {
            self
        } else {
            self.draw_row(xr, py, r, (nb - 1) as nat).draw_pixel(xr, py, r, nb - 1)
        }
    }

    /// The first `nr` rows of the sprite at `I`, drawn top to bottom; each
    /// row's screen line is taken from `V[yr]` as it stands when the row starts.
    pub open spec fn draw_rows(self, xr: int, yr: int, nr: nat) -> CpuState
        decreases nr,
    {
        if nr == 0 {
            self
        } else {
            let p = self.draw_rows(xr, yr, (nr - 1) as nat);
            p.draw_row(xr, (p.v[yr] + nr - 1) % (HEIGHT as int), nr - 1, 8)
        }
    }

    /// `Dxyn`: clear `VF`, then draw the `n`-row sprite at `I` at (`Vx`, `Vy`),
    /// wrapping around the screen edges.
    pub open spec fn exec_draw(self) -> CpuState {
        CpuState { v: self.v.update(15, 0u8), ..self }.draw_rows(
            x_of(self.opcode),
            y_of(self.opcode),
            n_of(self.opcode) as nat,
        )
    }

    /// `Ex9E` / `ExA1`: skip when the key named by `Vx` is / is not held.
    pub open spec fn exec_keys(self) -> Option<CpuState> {
        let kk = kk_of(self.opcode);
        let held = self.keys[self.v[x_of(self.opcode)] as int];
        if kk == 0x9E {
            Some(self.skip_if(held))
        } else if kk == 0xA1 {
            Some(self.skip_if(!held))
        } else {
            None
        }
    }

    /// `Fxkk`: timers, the index register and register/memory transfers.
    /// `Fx0A` waits for a key: with none held the program counter goes back
    /// to the instruction so that it runs again; otherwise the highest held
    /// key goes to `Vx`. `Fx55` / `Fx65` move `V0` through `Vx`.
    pub open spec fn exec_misc(self) -> Option<CpuState> {
        let x = x_of(self.opcode);
        let vx = self.v[x];
        let kk = kk_of(self.opcode);
        let i = self.i as int;
        if kk == 0x07 {
            Some(self.set_v(x, self.delay))
        } else if kk == 0x0A {
            if key_held(self.keys) {
                Some(self.set_v(x, last_pressed(self.keys, vx, NUM_KEYS as nat)))
            } else {
                Some(CpuState { pc: (self.pc - 2) as u16, ..self })
            }
        } else if kk == 0x15 {
            Some(CpuState { delay: vx, ..self })
        } else if kk == 0x18 {
            Some(CpuState { sound: vx, ..self })
        } else if kk == 0x1E {
            Some(CpuState { i: (i + vx) as u16, ..self })
        } else if kk == 0x29 {
            Some(CpuState { i: (vx * 5) as u16, ..self })
        } else if kk == 0x33 {
            Some(
                CpuState {
                    mem: self.mem.update(i, vx / 100).update(i + 1, (vx / 10) % 10).update(
                        i + 2,
                        vx % 10,
                    ),
                    ..self
                },
            )
        } else if kk == 0x55 {
            Some(
                CpuState {
                    mem: Seq::new(
                        MEM_SIZE as nat,
                        |a: int|
                            if i <= a <= i + x {
                                self.v[a - i]
                            } else {
                                self.mem[a]
                            },
                    ),
                    ..self
                },
            )
        } else if kk == 0x65 {
            Some(
                CpuState {
                    v: Seq::new(
                        NUM_REGS as nat,
                        |j: int|
                            if j <= x {
                                self.mem[i + j]
                            } else {
                                self.v[j]
                            },
                    ),
                    ..self
                },
            )
        } else {
            None
        }
    }

    /// What the latched instruction does to a state whose program counter has
    /// already moved past it; `None` when the word encodes no instruction.
    /// `rnd` is the random byte that `Cxkk` consumes; nothing else reads it.
    pub open spec fn execute(self, rnd: u8) -> Option<CpuState> {
        let op = self.opcode;
        let g = group_of(op);
        let x = x_of(op);
        let y = y_of(op);
        let kk = kk_of(op);
        let nnn = nnn_of(op);
        if g == 0x0 {
            self.exec_system()
        } else if g == 0x1 {
            Some(CpuState { pc: nnn as u16, ..self })
        } else if g == 0x2 {
            Some(self.exec_call())
        } else if g == 0x3 {
            Some(self.skip_if(self.v[x] == kk))
        } else if g == 0x4 {
            Some(self.skip_if(self.v[x] != kk))
        } else if g == 0x5 {
            Some(self.skip_if(self.v[x] == self.v[y]))
        } else if g == 0x6 {
            Some(self.set_v(x, kk as u8))
        } else if g == 0x7 {
            Some(self.set_v(x, ((self.v[x] + kk) % 256) as u8))
        } else if g == 0x8 {
            self.exec_alu()
        } else if g == 0x9 {
            if n_of(op) == 0 {
                Some(self.skip_if(self.v[x] != self.v[y]))
            } else {
                None
            }
        } else if g == 0xA {
            Some(CpuState { i: nnn as u16, ..self })
        } else if g == 0xB {
            Some(CpuState { pc: (self.v[0] + nnn) as u16, ..self })
        } else if g == 0xC {
            Some(self.set_v(x, rnd & (kk as u8)))
        } else if g == 0xD {
            Some(self.exec_draw())
        } else if g == 0xE {
            self.exec_keys()
        } else {
            self.exec_misc()
        }
    }

    /// The latched instruction can run without leaving the machine: no stack
    /// overflow or underflow, and no memory, key or register access out of range.
    pub open spec fn can_execute(self) -> bool {
        let op = self.opcode;
        let g = group_of(op);
        let x = x_of(op);
        let n = n_of(op);
        let kk = kk_of(op);
        let i = self.i as int;
        &&& op == 0x00EE ==> self.sp > 0
        &&& g == 0x2 ==> self.sp < 15
        &&& g == 0xD && n > 0 ==> i + n <= MEM_SIZE
        &&& g == 0xE && (kk == 0x9E || kk == 0xA1) ==> self.v[x] < NUM_KEYS
        &&& g == 0xF && kk == 0x1E ==> i + self.v[x] <= u16::MAX
        &&& g == 0xF && kk == 0x29 ==> self.v[x] * 5 <= u8::MAX
        &&& g == 0xF && kk == 0x33 ==> i + 2 < MEM_SIZE
        &&& g == 0xF && (kk == 0x55 || kk == 0x65) ==> i + x < MEM_SIZE
    }

    /// A full cycle can run: the instruction word lies inside memory and the
    /// instruction it encodes can execute.
    pub open spec fn can_step(self) -> bool {
        &&& self.pc + 1 < MEM_SIZE
        &&& self.fetched().can_execute()
    }

    /// One full cycle: fetch, advance the program counter, execute. An invalid
    /// word leaves the fetched state and is reported.
    pub open spec fn step(self, rnd: u8) -> (CpuState, Result<(), StepError>) {
        let t = self.fetched();
        match t.execute(rnd) {
            Some(next) => (next, Ok(())),
            None => (t, Err(StepError::InvalidOpcode(t.opcode))),
        }
    }

    /// What one tick of the 60 Hz timers does: each nonzero timer counts down.
    pub open spec fn tick(self) -> CpuState {
        CpuState {
            delay: if self.delay > 0 { (self.delay - 1) as u8 } else { 0 },
            sound: if self.sound > 0 { (self.sound - 1) as u8 } else { 0 },
            ..self
        }
    }
}

/// Drawing a pixel only touches `VF` and the frame buffer, and keeps every
/// buffer at its length.
pub proof fn lemma_draw_pixel_frame(s: CpuState, xr: int, py: int, r: int, b: int)
    requires
        s.wf(),
        0 <= xr < 16,
        0 <= py < HEIGHT,
    ensures
        s.draw_pixel(xr, py, r, b).wf(),
        s.draw_pixel(xr, py, r, b) == (CpuState {
            v: s.draw_pixel(xr, py, r, b).v,
            graphics: s.draw_pixel(xr, py, r, b).graphics,
            ..s
        }),
{
}

/// Drawing part of a sprite row only touches `VF` and the frame buffer.
pub proof fn lemma_draw_row_frame(s: CpuState, xr: int, py: int, r: int, nb: nat)
    requires
        s.wf(),
        0 <= xr < 16,
        0 <= py < HEIGHT,
    ensures
        s.draw_row(xr, py, r, nb).wf(),
        s.draw_row(xr, py, r, nb) == (CpuState {
            v: s.draw_row(xr, py, r, nb).v,
            graphics: s.draw_row(xr, py, r, nb).graphics,
            ..s
        }),
    decreases nb,
{
    if nb > 0 {
        lemma_draw_row_frame(s, xr, py, r, (nb - 1) as nat);
        lemma_draw_pixel_frame(s.draw_row(xr, py, r, (nb - 1) as nat), xr, py, r, nb - 1);
    }
}

/// Drawing sprite rows only touches `VF` and the frame buffer.
pub proof fn lemma_draw_rows_frame(s: CpuState, xr: int, yr: int, nr: nat)
    requires
        s.wf(),
        0 <= xr < 16,
        0 <= yr < 16,
    ensures
        s.draw_rows(xr, yr, nr).wf(),
        s.draw_rows(xr, yr, nr) == (CpuState {
            v: s.draw_rows(xr, yr, nr).v,
            graphics: s.draw_rows(xr, yr, nr).graphics,
            ..s
        }),
    decreases nr,
{
    if nr > 0 {
        lemma_draw_rows_frame(s, xr, yr, (nr - 1) as nat);
        let p = s.draw_rows(xr, yr, (nr - 1) as nat);
        lemma_draw_row_frame(p, xr, (p.v[yr] + nr - 1) % (HEIGHT as int), nr - 1, 8);
    }
}

} // verus!
