use vstd::prelude::*;

use crate::bytes::u16_from_u8;
use crate::display::{render_state, state_text};
use crate::decode::{op_group, op_kk, op_n, op_nnn, op_x, op_y};
use crate::font::{font, fontset, FONT_SIZE};
use crate::random::random_byte;
use crate::semantics::{
    add_regs, key_held, last_pressed, lemma_draw_row_frame, lemma_draw_rows_frame, shl_regs, shr_regs, sub_regs, subn_regs,
    StepError,
};
use crate::state::{
    group_of, n_of, x_of, y_of, CpuState, MEM_SIZE, NUM_KEYS, PROGRAM_START,
};

verus! {

/// The largest program that fits between `PROGRAM_START` and the end of memory.
pub const MAX_ROM_SIZE: usize = 3584;

/// A CHIP-8 machine: registers, call stack, timers, memory, frame buffer
/// and keypad.
pub struct Cpu {
    opcode: u16,
    v: [u8; 16],
    i: u16,
    sp: u8,
    stack: [u16; 16],
    graphics: [u8; 2048],
    pc: u16,
    delay: u8,
    sound: u8,
    keys: [bool; 16],
    mem: [u8; 4096],
}

impl View for Cpu {
    type V = CpuState;

    closed spec fn view(&self) -> CpuState {
        CpuState {
            opcode: self.opcode,
            v: self.v@,
            i: self.i,
            sp: self.sp,
            stack: self.stack@,
            graphics: self.graphics@,
            pc: self.pc,
            delay: self.delay,
            sound: self.sound,
            keys: self.keys@,
            mem: self.mem@,
        }
    }
}

/// The state of a machine that has just been switched on: everything zero
/// except the index register and the program counter, which point at the
/// start of the program area.
pub open spec fn initial_state() -> CpuState {
    CpuState {
        opcode: 0,
        v: Seq::new(16, |k: int| 0u8),
        i: PROGRAM_START,
        sp: 0,
        stack: Seq::new(16, |k: int| 0u16),
        graphics: Seq::new(2048, |k: int| 0u8),
        pc: PROGRAM_START,
        delay: 0,
        sound: 0,
        keys: Seq::new(16, |k: int| false),
        mem: Seq::new(4096, |k: int| 0u8),
    }
}

/// Memory after loading `rom`: the font at the bottom, the program at
/// `PROGRAM_START`, every other byte as it was.
pub open spec fn loaded_memory(mem: Seq<u8>, rom: Seq<u8>) -> Seq<u8> {
    Seq::new(
        mem.len(),
        |a: int|
            if a < FONT_SIZE {
                font()[a]
            } else if PROGRAM_START <= a < PROGRAM_START + rom.len() {
                rom[a - PROGRAM_START]
            } else {
                mem[a]
            },
    )
}

impl Cpu {
    /// Every buffer of the view has the length of the hardware it stands for.
    pub proof fn lemma_view_wf(&self)
        ensures
            self@.wf(),
    {
    }

    /// A machine that has just been switched on.
    pub fn new() -> (cpu: Cpu)
        ensures
            cpu@ == initial_state(),
    {
        let cpu = Cpu {
            opcode: 0,
            v: [0;16],
            i: PROGRAM_START,
            delay: 0,
            sound: 0,
            pc: PROGRAM_START,
            sp: 0,
            stack: [0;16],
            mem: [0;4096],
            graphics: [0;2048],
            keys: [false;16],
        };
        assert(cpu@ =~= initial_state());
        cpu
    }

    /// One tick of the 60 Hz timers: the delay and sound timers each count
    /// down by one unless they are already zero.
    pub fn timers(&mut self)
        ensures
            final(self)@ == old(self)@.tick(),
    {
        if self.delay > 0 {
            self.delay -= 1;
        }
        if self.sound > 0 {
            self.sound -= 1;
        }
    }

    /// Copies a program image to `PROGRAM_START` and the built-in font to the
    /// bottom of memory.
    pub fn load_rom(&mut self, rom: &[u8])
        requires
            rom@.len() <= MAX_ROM_SIZE,
        ensures
            final(self)@ == (CpuState { mem: loaded_memory(old(self)@.mem, rom@), ..old(self)@ }),
    {
        let ghost s0 = self@;
        let ghost old_mem = self.mem@;
        let mut k: usize = 0;
        while k < rom.len()
            invariant
                k <= rom@.len() <= MAX_ROM_SIZE,
                self.mem@.len() == MEM_SIZE,
                self@ == (CpuState { mem: self.mem@, ..s0 }),
                forall|a: int|
                    0 <= a < MEM_SIZE ==> #[trigger] self.mem@[a] == if PROGRAM_START <= a
                        < PROGRAM_START + k {
                        rom@[a - PROGRAM_START]
                    } else {
                        old_mem[a]
                    },
            decreases rom@.len() - k,
        {
            self.mem[k + 0x200] = rom[k];
            k += 1;
        }
        let f = fontset();
        let mut j: usize = 0;
        while j < FONT_SIZE
            invariant
                j <= FONT_SIZE,
                k == rom@.len() <= MAX_ROM_SIZE,
                f@ == font(),
                self.mem@.len() == MEM_SIZE,
                self@ == (CpuState { mem: self.mem@, ..s0 }),
                forall|a: int|
                    0 <= a < MEM_SIZE ==> #[trigger] self.mem@[a] == if a < j {
                        font()[a]
                    } else if PROGRAM_START <= a < PROGRAM_START + k {
                        rom@[a - PROGRAM_START]
                    } else {
                        old_mem[a]
                    },
            decreases FONT_SIZE - j,
        {
            self.mem[j] = f[j];
            j += 1;
        }
        assert(self.mem@ =~= loaded_memory(old_mem, rom@));
    }

    /// The frame buffer, 64 pixels wide and 32 high, row after row.
    pub fn graphics(&self) -> (g: &[u8; 2048])
        ensures
            g@ == self@.graphics,
    {
        &self.graphics
    }

    /// Which of the sixteen keys are held down.
    pub fn keys(&self) -> (k: &[bool; 16])
        ensures
            k@ == self@.keys,
    {
        &self.keys
    }

    /// The frame-buffer byte at `index` (row after row, 64 pixels per row).
    pub fn pixel(&self, index: usize) -> (p: u8)
        requires
            index < 2048,
        ensures
            p == self@.graphics[index as int],
    {
        self.graphics[index]
    }

    /// Whether a keypad key is held down.
    pub fn key_down(&self, key: usize) -> (down: bool)
        requires
            key < 16,
        ensures
            down == self@.keys[key as int],
    {
        self.keys[key]
    }

    /// Presses (`down`) or releases a keypad key.
    pub fn set_key(&mut self, key: usize, down: bool)
        requires
            key < 16,
        ensures
            final(self)@ == (CpuState { keys: old(self)@.keys.update(key as int, down), ..old(self)@ }),
    {
        self.keys[key] = down;
    }

    /// The registers, stack pointer, program counter and timers as text
    /// (see `state_text`).
    pub fn to_string(&self) -> (text: String)
        ensures
            text@ == state_text(self@),
    {
        render_state(&self.v, self.sp, self.pc, self.delay, self.sound)
    }

    /// Whether `step` can run on this machine without leaving it (see
    /// `CpuState::can_step`).
    pub fn can_step(&self) -> (ok: bool)
        ensures
            ok == self@.can_step(),
    {
        if self.pc >= 4095 {
            return false;
        }
        let op = u16_from_u8(self.mem.as_slice(), self.pc);
        let g = op_group(op);
        let x = op_x(op);
        let n = op_n(op);
        let kk = op_kk(op);
        let i = self.i as usize;
        let vx = self.v[x] as usize;
        if op == 0x00EE && self.sp == 0 {
            false
        } else if g == 0x2 && self.sp >= 15 {
            false
        } else if g == 0xD && n > 0 && i + n as usize > MEM_SIZE {
            false
        } else if g == 0xE && (kk == 0x9E || kk == 0xA1) && vx >= NUM_KEYS {
            false
        } else if g == 0xF && kk == 0x1E && i + vx > 0xFFFF {
            false
        } else if g == 0xF && kk == 0x29 && vx * 5 > 0xFF {
            false
        } else if g == 0xF && kk == 0x33 && i + 2 >= MEM_SIZE {
            false
        } else if g == 0xF && (kk == 0x55 || kk == 0x65) && i + x >= MEM_SIZE {
            false
        } else {
            true
        }
    }

    /// One cycle with `rnd` as the random byte that `Cxkk` consumes: fetch
    /// the instruction at the program counter, move past it, execute it.
    pub fn step_with(&mut self, rnd: u8) -> (r: Result<(), StepError>)
        requires
            old(self)@.can_step(),
        ensures
            (final(self)@, r) == old(self)@.step(rnd),
    {
        self.opcode = u16_from_u8(self.mem.as_slice(), self.pc);
        self.pc += 2;
        self.execute(rnd)
    }

    /// One cycle: fetch the instruction at the program counter, move past it,
    /// execute it. `Cxkk` draws its random byte from the `rand` crate; every
    /// other instruction behaves as with any random byte.
    pub fn step(&mut self) -> (r: Result<(), StepError>)
        requires
            old(self)@.can_step(),
        ensures
            exists|rnd: u8| (final(self)@, r) == #[trigger] old(self)@.step(rnd),
            group_of(old(self)@.fetch()) != 0xC ==> (final(self)@, r) == old(self)@.step(0),
    {
        let op = u16_from_u8(self.mem.as_slice(), self.pc);
        let rnd = if op_group(op) == 0xC {
            random_byte()
        } else {
            0
        };
        let r = self.step_with(rnd);
        proof {
            if group_of(old(self)@.fetch()) != 0xC {
                assert(rnd == 0);
            }
        }
        r
    }

    /// Executes the latched instruction; the program counter already points
    /// past it.
    fn execute(&mut self, rnd: u8) -> (r: Result<(), StepError>)
        requires
            old(self)@.can_execute(),
            2 <= old(self)@.pc,
            old(self)@.pc + 2 <= u16::MAX,
        ensures
            applied(old(self)@, final(self)@, r, old(self)@.execute(rnd)),
    {
        let g = op_group(self.opcode);
        if g == 0x0 {
            self.exec_system()
        } else if g == 0x1 || g == 0x2 || g == 0xB {
            self.exec_jump();
            Ok(())
        } else if g == 0x3 || g == 0x4 || g == 0x5 || g == 0x9 {
            self.exec_skip()
        } else if g == 0x6 || g == 0x7 || g == 0xA || g == 0xC {
            self.exec_load(rnd);
            Ok(())
        } else if g == 0x8 {
            self.exec_alu()
        } else if g == 0xD {
            self.exec_draw();
            Ok(())
        } else if g == 0xE {
            self.exec_keys()
        } else {
            self.exec_misc()
        }
    }

    /// `1nnn`, `2nnn`, `Bnnn`: jump, call, jump with offset.
    fn exec_jump(&mut self)
        requires
            group_of(old(self)@.opcode) == 0x1 || group_of(old(self)@.opcode) == 0x2
                || group_of(old(self)@.opcode) == 0xB,
            old(self)@.can_execute(),
        ensures
            Some(final(self)@) == old(self)@.execute(0),
    {
        let op = self.opcode;
        let g = op_group(op);
        let nnn = op_nnn(op);
        if g == 0x1 {
            self.pc = nnn;
        } else if g == 0x2 {
            self.sp += 1;
            self.stack[self.sp as usize] = self.pc;
            self.pc = nnn;
        } else {
            self.pc = self.v[0] as u16 + nnn;
        }
    }

    /// `3xkk`, `4xkk`, `5xy0`, `9xy0`: conditional skips.
    fn exec_skip(&mut self) -> (r: Result<(), StepError>)
        requires
            group_of(old(self)@.opcode) == 0x3 || group_of(old(self)@.opcode) == 0x4
                || group_of(old(self)@.opcode) == 0x5 || group_of(old(self)@.opcode) == 0x9,
            old(self)@.pc + 2 <= u16::MAX,
        ensures
            applied(old(self)@, final(self)@, r, old(self)@.execute(0)),
    {
        let op = self.opcode;
        let g = op_group(op);
        let x = op_x(op);
        let y = op_y(op);
        let kk = op_kk(op);
        if g == 0x3 {
            if self.v[x] == kk as u8 {
                self.pc += 2;
            }
        } else if g == 0x4 {
            if self.v[x] != kk as u8 {
                self.pc += 2;
            }
        } else if g == 0x5 {
            if self.v[x] == self.v[y] {
                self.pc += 2;
            }
        } else {
            if op_n(op) != 0 {
                return Err(StepError::InvalidOpcode(op));
            }
            if self.v[x] != self.v[y] {
                self.pc += 2;
            }
        }
        Ok(())
    }

    /// `6xkk`, `7xkk`, `Annn`, `Cxkk`: loads into a register or `I`.
    fn exec_load(&mut self, rnd: u8)
        requires
            group_of(old(self)@.opcode) == 0x6 || group_of(old(self)@.opcode) == 0x7
                || group_of(old(self)@.opcode) == 0xA || group_of(old(self)@.opcode) == 0xC,
        ensures
            Some(final(self)@) == old(self)@.execute(rnd),
    {
        let ghost s0 = self@;
        let op = self.opcode;
        let g = op_group(op);
        let x = op_x(op);
        let kk = op_kk(op);
        if g == 0x6 {
            self.v[x] = kk as u8;
        } else if g == 0x7 {
            self.v[x] = self.v[x].wrapping_add(kk as u8);
        } else if g == 0xA {
            self.i = op_nnn(op);
        } else {
            self.v[x] = rnd & (kk as u8);
        }
        assert(self@.v =~= s0.execute(rnd).unwrap().v);
    }

    /// `00E0` and `00EE`.
    fn exec_system(&mut self) -> (r: Result<(), StepError>)
        requires
            group_of(old(self)@.opcode) == 0,
            old(self)@.can_execute(),
        ensures
            applied(old(self)@, final(self)@, r, old(self)@.exec_system()),
    {
        if self.opcode == 0x00E0 {
            self.graphics = [0;2048];
            assert(self.graphics@ =~= Seq::new(2048, |k: int| 0u8));
            Ok(())
        } else if self.opcode == 0x00EE {
            let sp = self.sp;
            assert(sp & 0xFu8 == sp % 16) by (bit_vector);
            self.pc = self.stack[(sp & 0xF) as usize];
            self.sp -= 1;
            Ok(())
        } else {
            Err(StepError::InvalidOpcode(self.opcode))
        }
    }

    /// `8xyn`.
    fn exec_alu(&mut self) -> (r: Result<(), StepError>)
        requires
            group_of(old(self)@.opcode) == 8,
        ensures
            applied(old(self)@, final(self)@, r, old(self)@.exec_alu()),
    {
        let n = op_n(self.opcode);
        if n <= 0x3 {
            self.alu_logic();
        } else if n == 0x4 {
            self.alu_add(op_x(self.opcode), op_y(self.opcode));
        } else if n == 0x5 {
            self.alu_sub(op_x(self.opcode), op_y(self.opcode));
        } else if n == 0x7 {
            self.alu_subn(op_x(self.opcode), op_y(self.opcode));
        } else if n == 0x6 {
            self.alu_shr(op_x(self.opcode));
        } else if n == 0xE {
            self.alu_shl(op_x(self.opcode));
        } else {
            return Err(StepError::InvalidOpcode(self.opcode));
        }
        Ok(())
    }

    /// `8xy0` to `8xy3`: copy, or, and, xor.
    fn alu_logic(&mut self)
        requires
            group_of(old(self)@.opcode) == 8,
            n_of(old(self)@.opcode) <= 3,
        ensures
            Some(final(self)@) == old(self)@.exec_alu(),
    {
        let ghost s0 = self@;
        let op = self.opcode;
        let x = op_x(op);
        let y = op_y(op);
        let n = op_n(op);
        let vx = self.v[x];
        let vy = self.v[y];
        if n == 0x0 {
            self.v[x] = vy;
        } else if n == 0x1 {
            self.v[x] = vx | vy;
        } else if n == 0x2 {
            self.v[x] = vx & vy;
        } else {
            self.v[x] = vx ^ vy;
        }
        assert(self@.v =~= s0.exec_alu().unwrap().v);
    }

    /// `8xy4`: add with carry into `VF`.
    fn alu_add(&mut self, x: usize, y: usize)
        requires
            x < 16,
            y < 16,
        ensures
            final(self)@ == (CpuState { v: add_regs(old(self)@.v, x as int, y as int), ..old(self)@ }),
    {
        let ghost s0 = self@;
        let ans: usize = self.v[x] as usize + self.v[y] as usize;
        if ans > 255 {
            self.v[15] = 1;
        } else {
            self.v[15] = 0;
        }
        let a = self.v[x];
        let b = self.v[y];
        let c = a.wrapping_add(b);
        assert(c == (a + b) % 256) by {
            if a + b > 255 {
                assert(c == a + b - 256);
            }
        }
        self.v[x] = c;
        assert(self@.v =~= add_regs(s0.v, x as int, y as int));
    }

    /// `8xy5`: `Vx - Vy`; `VF` is set when `Vx > Vy`.
    fn alu_sub(&mut self, x: usize, y: usize)
        requires
            x < 16,
            y < 16,
        ensures
            final(self)@ == (CpuState { v: sub_regs(old(self)@.v, x as int, y as int), ..old(self)@ }),
    {
        let ghost s0 = self@;
        if self.v[x] > self.v[y] {
            self.v[15] = 1;
        } else {
            self.v[15] = 0;
        }
        let a = self.v[x];
        let b = self.v[y];
        let c = a.wrapping_sub(b);
        assert(c == (a - b + 256) % 256) by {
            if a >= b {
                assert(c == a - b);
            }
        }
        self.v[x] = c;
        assert(self@.v =~= sub_regs(s0.v, x as int, y as int));
    }

    /// `8xy7`: `Vy - Vx`; `VF` is set when `Vy > Vx`.
    fn alu_subn(&mut self, x: usize, y: usize)
        requires
            x < 16,
            y < 16,
        ensures
            final(self)@ == (CpuState { v: subn_regs(old(self)@.v, x as int, y as int), ..old(self)@ }),
    {
        let ghost s0 = self@;
        if self.v[y] > self.v[x] {
            self.v[15] = 1;
        } else {
            self.v[15] = 0;
        }
        let a = self.v[y];
        let b = self.v[x];
        let c = a.wrapping_sub(b);
        assert(c == (a - b + 256) % 256) by {
            if a >= b {
                assert(c == a - b);
            }
        }
        self.v[x] = c;
        assert(self@.v =~= subn_regs(s0.v, x as int, y as int));
    }

    /// `8xy6`: shift right by one, the bit shifted out to `VF`.
    fn alu_shr(&mut self, x: usize)
        requires
            x < 16,
        ensures
            final(self)@ == (CpuState { v: shr_regs(old(self)@.v, x as int), ..old(self)@ }),
    {
        let ghost s0 = self@;
        let vx = self.v[x];
        assert(vx & 1u8 == vx % 2) by (bit_vector);
        self.v[15] = vx & 1;
        let w = self.v[x];
        assert(w >> 1u8 == w / 2) by (bit_vector);
        self.v[x] = w >> 1;
        assert(self@.v =~= shr_regs(s0.v, x as int));
    }

    /// `8xyE`: shift left by one, the bit shifted out to `VF`.
    fn alu_shl(&mut self, x: usize)
        requires
            x < 16,
        ensures
            final(self)@ == (CpuState { v: shl_regs(old(self)@.v, x as int), ..old(self)@ }),
    {
        let ghost s0 = self@;
        let vx = self.v[x];
        assert((vx & 128u8) >> 7u8 == vx / 128) by (bit_vector);
        self.v[15] = (vx & 128) >> 7;
        let w = self.v[x];
        assert(w << 1u8 == (w * 2) % 256) by (bit_vector);
        self.v[x] = w << 1;
        assert(self@.v =~= shl_regs(s0.v, x as int));
    }

    /// `Dxyn`.
    fn exec_draw(&mut self)
        requires
            group_of(old(self)@.opcode) == 0xD,
            old(self)@.can_execute(),
        ensures
            final(self)@ == old(self)@.exec_draw(),
    {
        let op = self.opcode;
        let height = op_n(op);
        let xr = op_x(op);
        let yr = op_y(op);
        self.v[0xF] = 0;
        let ghost start = self@;
        let mut byte: u16 = 0;
        while byte < height
            invariant
                height as int == n_of(start.opcode),
                height < 16,
                height > 0 ==> start.i + height <= MEM_SIZE,
                xr as int == x_of(start.opcode),
                yr as int == y_of(start.opcode),
                xr < 16,
                yr < 16,
                byte <= height,
                self@ == start.draw_rows(xr as int, yr as int, byte as nat),
                start.wf(),
            decreases height - byte,
        {
            proof {
                lemma_draw_rows_frame(start, xr as int, yr as int, byte as nat);
            }
            let py: usize = (self.v[yr] as usize + byte as usize) % 32;
            let ghost row_start = self@;
            let mut bit: u8 = 0;
            while bit < 8
                invariant
                    byte < height,
                    height > 0 ==> start.i + height <= MEM_SIZE,
                    row_start.i == start.i,
                    xr < 16,
                    py < 32,
                    bit <= 8,
                    self@ == row_start.draw_row(xr as int, py as int, byte as int, bit as nat),
                    row_start.wf(),
                decreases 8 - bit,
            {
                proof {
                    lemma_draw_row_frame(row_start, xr as int, py as int, byte as int, bit as nat);
                }
                let px: usize = (self.v[xr] as usize + bit as usize) % 64;
                let color: u8 = (self.mem[self.i as usize + byte as usize] >> (7 - bit)) & 1;
                let idx: usize = py * 64 + px;
                self.v[0xF] = self.v[0xF] | (color & self.graphics[idx]);
                self.graphics[idx] = self.graphics[idx] ^ color;
                bit += 1;
            }
            byte += 1;
        }
    }

    /// `Ex9E` and `ExA1`.
    fn exec_keys(&mut self) -> (r: Result<(), StepError>)
        requires
            group_of(old(self)@.opcode) == 0xE,
            old(self)@.can_execute(),
            old(self)@.pc + 2 <= u16::MAX,
        ensures
            applied(old(self)@, final(self)@, r, old(self)@.exec_keys()),
    {
        let op = self.opcode;
        let x = op_x(op);
        let kk = op_kk(op);
        if kk == 0x9E {
            if self.keys[self.v[x] as usize] {
                self.pc += 2;
            }
            Ok(())
        } else if kk == 0xA1 {
            if !self.keys[self.v[x] as usize] {
                self.pc += 2;
            }
            Ok(())
        } else {
            Err(StepError::InvalidOpcode(op))
        }
    }

    /// `Fxkk`.
    fn exec_misc(&mut self) -> (r: Result<(), StepError>)
        requires
            group_of(old(self)@.opcode) == 0xF,
            old(self)@.can_execute(),
            2 <= old(self)@.pc,
        ensures
            applied(old(self)@, final(self)@, r, old(self)@.exec_misc()),
    {
        let op = self.opcode;
        let x = op_x(op);
        let kk = op_kk(op);
        if kk == 0x07 {
            self.v[x] = self.delay;
        } else if kk == 0x0A {
            self.wait_key(x);
        } else if kk == 0x15 {
            self.delay = self.v[x];
        } else if kk == 0x18 {
            self.sound = self.v[x];
        } else if kk == 0x1E {
            self.i += self.v[x] as u16;
        } else if kk == 0x29 {
            self.i = (self.v[x] * 5) as u16;
        } else if kk == 0x33 {
            let vx = self.v[x];
            self.mem[self.i as usize] = vx / 100;
            self.mem[(self.i + 1) as usize] = (vx / 10) % 10;
            self.mem[(self.i + 2) as usize] = vx % 10;
        } else if kk == 0x55 {
            self.store_registers(x);
        } else if kk == 0x65 {
            self.load_registers(x);
        } else {
            return Err(StepError::InvalidOpcode(op));
        }
        Ok(())
    }

    /// `Fx0A`: waits for a key. The highest-numbered key held down goes to
    /// `Vx`; with no key held the program counter goes back to the
    /// instruction so that the next cycle runs it again.
    fn wait_key(&mut self, x: usize)
        requires
            x < 16,
            2 <= old(self)@.pc,
        ensures
            final(self)@ == if key_held(old(self)@.keys) {
                old(self)@.set_v(
                    x as int,
                    last_pressed(old(self)@.keys, old(self)@.v[x as int], 16),
                )
            } else {
                CpuState { pc: (old(self)@.pc - 2) as u16, ..old(self)@ }
            },
    {
        let ghost s0 = self@;
        assert(s0.v.update(x as int, s0.v[x as int]) =~= s0.v);
        let mut found = false;
        let mut k: usize = 0;
        while k < NUM_KEYS
            invariant
                x < 16,
                k <= NUM_KEYS,
                s0.wf(),
                found == (exists|j: int| 0 <= j < k && #[trigger] s0.keys[j]),
                !found ==> last_pressed(s0.keys, s0.v[x as int], k as nat) == s0.v[x as int],
                self@ == s0.set_v(x as int, last_pressed(s0.keys, s0.v[x as int], k as nat)),
            decreases NUM_KEYS - k,
        {
            if self.keys[k] {
                self.v[x] = k as u8;
                found = true;
            }
            proof {
                assert(self@.v =~= s0.set_v(
                    x as int,
                    last_pressed(s0.keys, s0.v[x as int], (k + 1) as nat),
                ).v);
            }
            k += 1;
        }
        if !found {
            assert(self@ == s0);
            self.pc = self.pc - 2;
        }
    }

    /// `Fx55`: `V0` through `Vx` go to memory at `I`.
    fn store_registers(&mut self, x: usize)
        requires
            x < 16,
            old(self)@.i + x < MEM_SIZE,
        ensures
            final(self)@ == (CpuState {
                mem: Seq::new(
                    MEM_SIZE as nat,
                    |a: int|
                        if old(self)@.i <= a <= old(self)@.i + x {
                            old(self)@.v[a - old(self)@.i]
                        } else {
                            old(self)@.mem[a]
                        },
                ),
                ..old(self)@
            }),
    {
        let ghost s0 = self@;
        let mut j: u16 = 0;
        while j <= x as u16
            invariant
                x < 16,
                j <= x + 1,
                s0.i + x < MEM_SIZE,
                s0.wf(),
                self@ == (CpuState {
                    mem: Seq::new(
                        MEM_SIZE as nat,
                        |a: int|
                            if s0.i <= a < s0.i + j {
                                s0.v[a - s0.i]
                            } else {
                                s0.mem[a]
                            },
                    ),
                    ..s0
                }),
            decreases x + 1 - j,
        {
            self.mem[(self.i + j) as usize] = self.v[j as usize];
            j += 1;
            proof {
                assert(self@.mem =~= Seq::new(
                    MEM_SIZE as nat,
                    |a: int|
                        if s0.i <= a < s0.i + j {
                            s0.v[a - s0.i]
                        } else {
                            s0.mem[a]
                        },
                ));
            }
        }
        proof {
            assert(self@.mem =~= Seq::new(
                MEM_SIZE as nat,
                |a: int|
                    if s0.i <= a <= s0.i + x {
                        s0.v[a - s0.i]
                    } else {
                        s0.mem[a]
                    },
            ));
        }
    }

    /// `Fx65`: memory at `I` goes to `V0` through `Vx`.
    fn load_registers(&mut self, x: usize)
        requires
            x < 16,
            old(self)@.i + x < MEM_SIZE,
        ensures
            final(self)@ == (CpuState {
                v: Seq::new(
                    16,
                    |j: int|
                        if j <= x {
                            old(self)@.mem[old(self)@.i + j]
                        } else {
                            old(self)@.v[j]
                        },
                ),
                ..old(self)@
            }),
    {
        let ghost s0 = self@;
        let mut j: u16 = 0;
        while j <= x as u16
            invariant
                x < 16,
                j <= x + 1,
                s0.i + x < MEM_SIZE,
                s0.wf(),
                self@ == (CpuState {
                    v: Seq::new(
                        16,
                        |jj: int|
                            if jj < j {
                                s0.mem[s0.i + jj]
                            } else {
                                s0.v[jj]
                            },
                    ),
                    ..s0
                }),
            decreases x + 1 - j,
        {
            self.v[j as usize] = self.mem[(self.i + j) as usize];
            j += 1;
            proof {
                assert(self@.v =~= Seq::new(
                    16,
                    |jj: int|
                        if jj < j {
                            s0.mem[s0.i + jj]
                        } else {
                            s0.v[jj]
                        },
                ));
            }
        }
        proof {
            assert(self@.v =~= Seq::new(
                16,
                |jj: int|
                    if jj <= x {
                        s0.mem[s0.i + jj]
                    } else {
                        s0.v[jj]
                    },
            ));
        }
    }
}

/// `after` and `r` are what running an instruction whose effect is `next`
/// on `before` gives: the new state, or the untouched state and an error
/// naming the word when it encodes no instruction.
spec fn applied(
    before: CpuState,
    after: CpuState,
    r: Result<(), StepError>,
    next: Option<CpuState>,
) -> bool {
    match next {
        Some(n) => r == Ok::<(), StepError>(()) && after == n,
        None => r == Err::<(), StepError>(StepError::InvalidOpcode(before.opcode)) && after
            == before,
    }
}

} // verus!
