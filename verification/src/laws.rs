use vstd::prelude::*;

use crate::cpu::{initial_state, loaded_memory};
use crate::font::font;
use crate::semantics::StepError;
use crate::semantics::{
    key_held, last_pressed, lemma_draw_row_frame, lemma_draw_rows_frame, sprite_bit,
};
use crate::state::{group_of, kk_of, n_of, x_of, y_of, CpuState, MEM_SIZE};

verus! {

/// The random byte only matters to `Cxkk`: for every other instruction a
/// cycle has the same outcome whatever byte it is given.
pub proof fn lemma_step_ignores_random(s: CpuState, r1: u8, r2: u8)
    requires
        group_of(s.fetch()) != 0xC,
    ensures
        s.step(r1) == s.step(r2),
{
}

/// A cycle keeps every buffer at its hardware length.
pub proof fn lemma_step_keeps_wf(s: CpuState, rnd: u8)
    requires
        s.wf(),
        s.can_step(),
    ensures
        s.step(rnd).0.wf(),
{
    let t = s.fetched();
    if group_of(t.opcode) == 0xD {
        lemma_draw_rows_frame(
            CpuState { v: t.v.update(15, 0u8), ..t },
            x_of(t.opcode),
            y_of(t.opcode),
            n_of(t.opcode) as nat,
        );
    }
}

/// No instruction writes the keypad: a cycle leaves the keys as they were.
pub proof fn lemma_step_keeps_keys(s: CpuState, rnd: u8)
    requires
        s.wf(),
    ensures
        s.step(rnd).0.keys == s.keys,
{
    let t = s.fetched();
    if group_of(t.opcode) == 0xD {
        lemma_draw_rows_frame(
            CpuState { v: t.v.update(15, 0u8), ..t },
            x_of(t.opcode),
            y_of(t.opcode),
            n_of(t.opcode) as nat,
        );
    }
}

/// Only `Fx33` and `Fx55` write memory: every other cycle leaves it as it was.
pub proof fn lemma_step_memory_writers(s: CpuState, rnd: u8)
    requires
        s.wf(),
        !(group_of(s.fetch()) == 0xF && (kk_of(s.fetch()) == 0x33 || kk_of(s.fetch()) == 0x55)),
    ensures
        s.step(rnd).0.mem == s.mem,
{
    let t = s.fetched();
    if group_of(t.opcode) == 0xD {
        lemma_draw_rows_frame(
            CpuState { v: t.v.update(15, 0u8), ..t },
            x_of(t.opcode),
            y_of(t.opcode),
            n_of(t.opcode) as nat,
        );
    }
}

/// A subroutine call followed by a return in the subroutine resumes at the
/// instruction after the call, with the stack pointer where it was.
pub proof fn lemma_call_then_return(s: CpuState, r1: u8, r2: u8)
    requires
        s.wf(),
        s.can_step(),
        group_of(s.fetch()) == 0x2,
        s.step(r1).0.can_step(),
        s.step(r1).0.fetch() == 0x00EE,
    ensures
        s.step(r1).0.pc == nnn_target(s.fetch()),
        s.step(r1).1 is Ok,
        s.step(r1).0.step(r2).1 is Ok,
        s.step(r1).0.step(r2).0.pc == s.pc + 2,
        s.step(r1).0.step(r2).0.sp == s.sp,
{
    lemma_step_call(s, r1);
    lemma_step_return(s.step(r1).0, r2);
}

/// A cycle on a `2nnn` word is the call of the fetched state.
proof fn lemma_step_call(s: CpuState, rnd: u8)
    requires
        s.wf(),
        s.can_step(),
        group_of(s.fetch()) == 0x2,
    ensures
        s.step(rnd) == (s.fetched().exec_call(), Ok::<(), StepError>(())),
{
}

/// A cycle on `00EE` pops the return address.
proof fn lemma_step_return(s: CpuState, rnd: u8)
    requires
        s.can_step(),
        s.fetch() == 0x00EE,
    ensures
        s.step(rnd) == (
            CpuState { pc: s.stack[s.sp as int % 16], sp: (s.sp - 1) as u8, ..s.fetched() },
            Ok::<(), StepError>(()),
        ),
{
}

/// The address a jump or call with instruction word `op` goes to.
pub open spec fn nnn_target(op: u16) -> u16 {
    (op as int % 4096) as u16
}

/// `Fx55` followed by `Fx65` with the same `x` reads back what was written:
/// `V0` through `Vx` come back unchanged, and so do all other registers.
pub proof fn lemma_store_then_load(s: CpuState, r1: u8, r2: u8)
    requires
        s.wf(),
        s.can_step(),
        group_of(s.fetch()) == 0xF,
        kk_of(s.fetch()) == 0x55,
        s.step(r1).0.can_step(),
        group_of(s.step(r1).0.fetch()) == 0xF,
        kk_of(s.step(r1).0.fetch()) == 0x65,
        x_of(s.step(r1).0.fetch()) == x_of(s.fetch()),
    ensures
        s.step(r1).0.step(r2).0.v == s.v,
        s.step(r1).0.step(r2).0.mem == s.step(r1).0.mem,
        s.step(r1).0.step(r2).0.i == s.i,
{
    let s1 = s.step(r1).0;
    let s2 = s1.step(r2).0;
    assert(s2.v =~= s.v);
}

/// `Fx33` writes the decimal digits of `Vx` to `I`, `I + 1`, `I + 2`:
/// each is a digit, and together they spell `Vx`.
pub proof fn lemma_bcd_digits(s: CpuState, rnd: u8)
    requires
        s.wf(),
        s.can_step(),
        group_of(s.fetch()) == 0xF,
        kk_of(s.fetch()) == 0x33,
    ensures
        ({
            let n = s.step(rnd).0;
            let i = s.i as int;
            &&& n.mem[i] < 10
            &&& n.mem[i + 1] < 10
            &&& n.mem[i + 2] < 10
            &&& n.mem[i] * 100 + n.mem[i + 1] * 10 + n.mem[i + 2] == s.v[x_of(s.fetch())]
        }),
{
}

/// `8xy4` with neither operand in `VF`: the carry in `VF` and the new `Vx`
/// together hold the full sum.
pub proof fn lemma_add_carry(s: CpuState, rnd: u8)
    requires
        s.wf(),
        s.can_step(),
        group_of(s.fetch()) == 0x8,
        n_of(s.fetch()) == 4,
        x_of(s.fetch()) != 15,
        y_of(s.fetch()) != 15,
    ensures
        ({
            let n = s.step(rnd).0;
            let x = x_of(s.fetch());
            let y = y_of(s.fetch());
            &&& n.v[15] <= 1
            &&& n.v[15] * 256 + n.v[x] == s.v[x] + s.v[y]
        }),
{
}

/// `8xy5` with neither operand in `VF`: `VF` tells whether `Vx > Vy`, and the
/// new `Vx` is `Vx - Vy`, borrowing 256 when `Vy > Vx`.
pub proof fn lemma_sub_borrow(s: CpuState, rnd: u8)
    requires
        s.wf(),
        s.can_step(),
        group_of(s.fetch()) == 0x8,
        n_of(s.fetch()) == 5,
        x_of(s.fetch()) != 15,
        y_of(s.fetch()) != 15,
    ensures
        ({
            let n = s.step(rnd).0;
            let x = x_of(s.fetch());
            let y = y_of(s.fetch());
            &&& n.v[15] == (if s.v[x] > s.v[y] { 1u8 } else { 0u8 })
            &&& n.v[x] == (if s.v[x] >= s.v[y] { s.v[x] - s.v[y] } else { s.v[x] - s.v[y] + 256 })
        }),
{
}

/// With the font in place (as `load_rom` leaves it), `Fx29` points `I` at the
/// five-row glyph of the hexadecimal digit in `Vx`.
pub proof fn lemma_font_lookup(s: CpuState, rnd: u8)
    requires
        s.wf(),
        s.can_step(),
        s.mem.subrange(0, 80) == font(),
        group_of(s.fetch()) == 0xF,
        kk_of(s.fetch()) == 0x29,
        s.v[x_of(s.fetch())] < 16,
    ensures
        ({
            let n = s.step(rnd).0;
            let d = s.v[x_of(s.fetch())] as int;
            &&& n.i == d * 5
            &&& n.mem.subrange(n.i as int, n.i + 5) == font().subrange(d * 5, d * 5 + 5)
        }),
{
    let n = s.step(rnd).0;
    let d = s.v[x_of(s.fetch())] as int;
    assert(n.mem.subrange(n.i as int, n.i + 5) =~= font().subrange(d * 5, d * 5 + 5)) by {
        assert forall|k: int| 0 <= k < 5 implies #[trigger] n.mem[d * 5 + k] == font()[d * 5
            + k] by {
            assert(s.mem.subrange(0, 80)[d * 5 + k] == s.mem[d * 5 + k]);
        }
    }
}

/// A pixel drawn onto a screen of zeros and ones leaves zeros and ones.
proof fn lemma_draw_pixel_binary(s: CpuState, xr: int, py: int, r: int, b: int)
    requires
        s.wf(),
        s.screen_is_binary(),
        0 <= xr < 16,
        0 <= py < 32,
    ensures
        s.draw_pixel(xr, py, r, b).screen_is_binary(),
{
    let n = s.draw_pixel(xr, py, r, b);
    let px = (s.v[xr] + b) % 64;
    let idx = py * 64 + px;
    let color = sprite_bit(s.mem[s.i + r], b as u8);
    let g = s.graphics[idx];
    let row = s.mem[s.i + r];
    let sh = (7 - (b as u8)) as u8;
    assert(color == (row >> sh) & 1u8);
    assert((row >> sh) & 1u8 <= 1) by (bit_vector);
    assert(g <= 1 && color <= 1 ==> g ^ color <= 1) by (bit_vector);
    assert forall|k: int| 0 <= k < n.graphics.len() implies #[trigger] n.graphics[k] <= 1 by {
        if k != idx {
            assert(n.graphics[k] == s.graphics[k]);
        }
    }
}

/// Part of a sprite row drawn onto a screen of zeros and ones leaves zeros
/// and ones.
proof fn lemma_draw_row_binary(s: CpuState, xr: int, py: int, r: int, nb: nat)
    requires
        s.wf(),
        s.screen_is_binary(),
        0 <= xr < 16,
        0 <= py < 32,
    ensures
        s.draw_row(xr, py, r, nb).screen_is_binary(),
    decreases nb,
{
    if nb > 0 {
        lemma_draw_row_binary(s, xr, py, r, (nb - 1) as nat);
        lemma_draw_row_frame(s, xr, py, r, (nb - 1) as nat);
        lemma_draw_pixel_binary(s.draw_row(xr, py, r, (nb - 1) as nat), xr, py, r, nb - 1);
    }
}

/// Sprite rows drawn onto a screen of zeros and ones leave zeros and ones.
proof fn lemma_draw_rows_binary(s: CpuState, xr: int, yr: int, nr: nat)
    requires
        s.wf(),
        s.screen_is_binary(),
        0 <= xr < 16,
        0 <= yr < 16,
    ensures
        s.draw_rows(xr, yr, nr).screen_is_binary(),
    decreases nr,
{
    if nr > 0 {
        lemma_draw_rows_binary(s, xr, yr, (nr - 1) as nat);
        lemma_draw_rows_frame(s, xr, yr, (nr - 1) as nat);
        let p = s.draw_rows(xr, yr, (nr - 1) as nat);
        lemma_draw_row_binary(p, xr, (p.v[yr] + nr - 1) % 32, nr - 1, 8);
    }
}

/// The screen only ever holds zeros and ones: a cycle on such a screen
/// leaves such a screen.
pub proof fn lemma_step_keeps_screen_binary(s: CpuState, rnd: u8)
    requires
        s.wf(),
        s.can_step(),
        s.screen_is_binary(),
    ensures
        s.step(rnd).0.screen_is_binary(),
{
    let t = s.fetched();
    if group_of(t.opcode) == 0xD {
        lemma_draw_rows_binary(
            CpuState { v: t.v.update(15, 0u8), ..t },
            x_of(t.opcode),
            y_of(t.opcode),
            n_of(t.opcode) as nat,
        );
    }
}

/// The bit of the sprite at `I` that lands on pixel `p` when `Dxyn` draws
/// `nr` rows with origin (`x0`, `y0`), or 0 when no bit of it lands there.
/// Rows and columns wrap around the screen.
pub open spec fn sprite_mask(mem: Seq<u8>, i: int, x0: int, y0: int, nr: int, p: int) -> u8 {
    let r = (p / 64 - y0) % 32;
    let b = (p % 64 - x0) % 64;
    if r < nr && b < 8 {
        (mem[i + r] >> ((7 - b) as u8)) & 1u8
    } else {
        0
    }
}

/// The bit of sprite row `r` that lands on pixel `p` when its first `nb`
/// bits are drawn on screen line `py` from column `x0`, or 0.
spec fn row_mask(mem: Seq<u8>, i: int, x0: int, py: int, r: int, nb: int, p: int) -> u8 {
    let b = (p % 64 - x0) % 64;
    if p / 64 == py && b < nb {
        (mem[i + r] >> ((7 - b) as u8)) & 1u8
    } else {
        0
    }
}

proof fn lemma_xor_facts()
    by (bit_vector)
    ensures
        forall|a: u8| #[trigger] (a ^ 0u8) == a,
        forall|a: u8, b: u8| #[trigger] ((a ^ b) ^ b) == a,
{
}

/// Bit `b` of a sprite row lands on pixel `p` of line `py` exactly when the
/// column of `p`, counted from `x0` with wrap-around, is `b`.
proof fn lemma_pixel_index(p: int, py: int, x0: int, b: int)
    requires
        0 <= p < 2048,
        0 <= py < 32,
        0 <= x0 < 256,
        0 <= b < 8,
    ensures
        (p == py * 64 + (x0 + b) % 64) <==> (p / 64 == py && (p % 64 - x0) % 64 == b),
{
}

/// Row `k` of a sprite lands on line `line` exactly when the line, counted
/// from `y0` with wrap-around, is `k`.
proof fn lemma_line_index(line: int, y0: int, k: int)
    requires
        0 <= line < 32,
        0 <= y0 < 256,
        0 <= k < 32,
    ensures
        (line == (y0 + k) % 32) <==> ((line - y0) % 32 == k),
{
}

/// Drawing part of a sprite row XORs its bits onto the screen and leaves
/// every register but `VF` alone.
proof fn lemma_draw_row_xor(s: CpuState, xr: int, py: int, r: int, nb: nat)
    requires
        s.wf(),
        0 <= xr < 15,
        0 <= py < 32,
        nb <= 8,
    ensures
        forall|k: int| 0 <= k < 15 ==> #[trigger] s.draw_row(xr, py, r, nb).v[k] == s.v[k],
        forall|p: int|
            0 <= p < 2048 ==> #[trigger] s.draw_row(xr, py, r, nb).graphics[p] == s.graphics[p]
                ^ row_mask(s.mem, s.i as int, s.v[xr] as int, py, r, nb as int, p),
    decreases nb,
{
    lemma_xor_facts();
    if nb > 0 {
        let b = nb - 1;
        lemma_draw_row_xor(s, xr, py, r, b as nat);
        lemma_draw_row_frame(s, xr, py, r, b as nat);
        let q = s.draw_row(xr, py, r, b as nat);
        let n = q.draw_pixel(xr, py, r, b);
        let x0 = s.v[xr] as int;
        let idx = py * 64 + (x0 + b) % 64;
        assert forall|p: int| 0 <= p < 2048 implies #[trigger] n.graphics[p] == s.graphics[p]
            ^ row_mask(s.mem, s.i as int, x0, py, r, nb as int, p) by {
            lemma_pixel_index(p, py, x0, b);
            assert(q.graphics[p] == s.graphics[p] ^ row_mask(
                s.mem,
                s.i as int,
                x0,
                py,
                r,
                b,
                p,
            ));
        }
    }
}

/// Drawing sprite rows whose coordinate registers are not `VF` XORs the
/// sprite onto the screen and leaves every register but `VF` alone.
proof fn lemma_draw_rows_xor(s: CpuState, xr: int, yr: int, nr: nat)
    requires
        s.wf(),
        0 <= xr < 15,
        0 <= yr < 15,
        nr <= 16,
    ensures
        forall|k: int| 0 <= k < 15 ==> #[trigger] s.draw_rows(xr, yr, nr).v[k] == s.v[k],
        forall|p: int|
            0 <= p < 2048 ==> #[trigger] s.draw_rows(xr, yr, nr).graphics[p] == s.graphics[p]
                ^ sprite_mask(s.mem, s.i as int, s.v[xr] as int, s.v[yr] as int, nr as int, p),
    decreases nr,
{
    lemma_xor_facts();
    if nr > 0 {
        let k = nr - 1;
        lemma_draw_rows_xor(s, xr, yr, k as nat);
        lemma_draw_rows_frame(s, xr, yr, k as nat);
        let q = s.draw_rows(xr, yr, k as nat);
        let y0 = s.v[yr] as int;
        let x0 = s.v[xr] as int;
        let py = (q.v[yr] + k) % 32;
        lemma_draw_row_xor(q, xr, py, k, 8);
        assert forall|p: int| 0 <= p < 2048 implies #[trigger] s.draw_rows(
            xr,
            yr,
            nr,
        ).graphics[p] == s.graphics[p] ^ sprite_mask(s.mem, s.i as int, x0, y0, nr as int, p) by {
            lemma_line_index(p / 64, y0, k);
            assert(q.graphics[p] == s.graphics[p] ^ sprite_mask(
                s.mem,
                s.i as int,
                x0,
                y0,
                k,
                p,
            ));
        }
    }
}

/// `Dxyn` whose coordinate registers are not `VF` XORs the sprite at `I`
/// onto the screen at (`Vx`, `Vy`): each pixel flips exactly where a set
/// bit of the sprite lands.
pub proof fn lemma_draw_xors_sprite(t: CpuState)
    requires
        t.wf(),
        group_of(t.opcode) == 0xD,
        x_of(t.opcode) != 15,
        y_of(t.opcode) != 15,
    ensures
        forall|p: int|
            0 <= p < 2048 ==> #[trigger] t.exec_draw().graphics[p] == t.graphics[p] ^ sprite_mask(
                t.mem,
                t.i as int,
                t.v[x_of(t.opcode)] as int,
                t.v[y_of(t.opcode)] as int,
                n_of(t.opcode),
                p,
            ),
        forall|k: int| 0 <= k < 15 ==> #[trigger] t.exec_draw().v[k] == t.v[k],
        t.exec_draw().mem == t.mem,
        t.exec_draw().i == t.i,
        t.exec_draw().opcode == t.opcode,
{
    let s0 = CpuState { v: t.v.update(15, 0u8), ..t };
    lemma_draw_rows_xor(s0, x_of(t.opcode), y_of(t.opcode), n_of(t.opcode) as nat);
    lemma_draw_rows_frame(s0, x_of(t.opcode), y_of(t.opcode), n_of(t.opcode) as nat);
}

/// Drawing the same sprite twice at the same place restores the screen
/// (when neither coordinate register is `VF`).
pub proof fn lemma_draw_twice_restores(t: CpuState)
    requires
        t.wf(),
        group_of(t.opcode) == 0xD,
        x_of(t.opcode) != 15,
        y_of(t.opcode) != 15,
    ensures
        t.exec_draw().exec_draw().graphics == t.graphics,
{
    lemma_xor_facts();
    let t1 = t.exec_draw();
    lemma_draw_xors_sprite(t);
    lemma_draw_rows_frame(
        CpuState { v: t.v.update(15, 0u8), ..t },
        x_of(t.opcode),
        y_of(t.opcode),
        n_of(t.opcode) as nat,
    );
    lemma_draw_xors_sprite(t1);
    let x = x_of(t.opcode);
    let y = y_of(t.opcode);
    assert(t1.v[x] == t.v[x]);
    assert(t1.v[y] == t.v[y]);
    lemma_draw_rows_frame(
        CpuState { v: t1.v.update(15, 0u8), ..t1 },
        x_of(t.opcode),
        y_of(t.opcode),
        n_of(t.opcode) as nat,
    );
    let t2 = t1.exec_draw();
    assert forall|p: int| 0 <= p < 2048 implies #[trigger] t2.graphics[p] == t.graphics[p] by {
        let m = sprite_mask(t.mem, t.i as int, t.v[x] as int, t.v[y] as int, n_of(t.opcode), p);
        assert(t1.graphics[p] == t.graphics[p] ^ m);
        assert(t2.graphics[p] == t1.graphics[p] ^ m);
    }
    assert(t2.graphics =~= t.graphics);
}

/// Some set bit of the first `nb` bits of sprite row `r`, drawn on line
/// `py` from column `x0`, lands on a pixel that is set in `g`.
spec fn row_hits(mem: Seq<u8>, i: int, x0: int, py: int, r: int, nb: int, g: Seq<u8>) -> bool {
    exists|p: int|
        0 <= p < 2048 && (#[trigger] row_mask(mem, i, x0, py, r, nb, p) & g[p]) != 0
}

/// Some set bit of the `nr`-row sprite at `I`, drawn at (`x0`, `y0`), lands
/// on a pixel that is set in `g`: drawing it there is a collision.
pub open spec fn sprite_hits(mem: Seq<u8>, i: int, x0: int, y0: int, nr: int, g: Seq<u8>) -> bool {
    exists|p: int|
        0 <= p < 2048 && (#[trigger] sprite_mask(mem, i, x0, y0, nr, p) & g[p]) != 0
}

/// Bit `c` (from the left) of a row byte is 0 or 1.
proof fn lemma_row_bit_is_bit(row: u8, c: int)
    requires
        0 <= c < 8,
    ensures
        (row >> ((7 - c) as u8)) & 1u8 <= 1,
{
    let sh = (7 - c) as u8;
    assert((row >> sh) & 1u8 <= 1) by (bit_vector);
}

/// The colour a drawn pixel gets is bit `c` of the row byte, counted from
/// the most significant bit.
proof fn lemma_sprite_bit_agrees(row: u8, c: int)
    requires
        0 <= c < 8,
    ensures
        sprite_bit(row, c as u8) == (row >> ((7 - c) as u8)) & 1u8,
{
}

proof fn lemma_flag_or(a: u8, c: u8, g: u8)
    by (bit_vector)
    requires
        a <= 1,
        c <= 1,
    ensures
        (a | (c & g)) <= 1,
        ((a | (c & g)) == 1) == (a == 1 || (c & g) != 0),
        (0u8 & g) == 0,
{
}

/// While a sprite row is drawn, `VF` (0 or 1) turns 1 exactly when one of
/// its set bits lands on a set pixel of the screen as it was at the row's start.
proof fn lemma_draw_row_flag(s: CpuState, xr: int, py: int, r: int, nb: nat)
    requires
        s.wf(),
        0 <= xr < 15,
        0 <= py < 32,
        nb <= 8,
        s.v[15] <= 1,
    ensures
        s.draw_row(xr, py, r, nb).v[15] == (if s.v[15] == 1 || row_hits(
            s.mem,
            s.i as int,
            s.v[xr] as int,
            py,
            r,
            nb as int,
            s.graphics,
        ) {
            1u8
        } else {
            0u8
        }),
    decreases nb,
{
    lemma_xor_facts();
    let x0 = s.v[xr] as int;
    let i = s.i as int;
    if nb == 0 {
        if row_hits(s.mem, i, x0, py, r, 0, s.graphics) {
            let p = choose|p: int|
                0 <= p < 2048 && (#[trigger] row_mask(s.mem, i, x0, py, r, 0, p) & s.graphics[p])
                    != 0;
            lemma_flag_or(0, 0, s.graphics[p]);
        }
    } else {
        let b = nb - 1;
        lemma_draw_row_flag(s, xr, py, r, b as nat);
        lemma_draw_row_xor(s, xr, py, r, b as nat);
        lemma_draw_row_frame(s, xr, py, r, b as nat);
        let q = s.draw_row(xr, py, r, b as nat);
        let idx = py * 64 + (x0 + b) % 64;
        let color = sprite_bit(s.mem[i + r], b as u8);
        lemma_sprite_bit_agrees(s.mem[i + r], b);
        lemma_row_bit_is_bit(s.mem[i + r], b);
        lemma_pixel_index(idx, py, x0, b);
        assert(q.graphics[idx] == s.graphics[idx] ^ row_mask(s.mem, i, x0, py, r, b, idx));
        assert(q.graphics[idx] == s.graphics[idx]);
        lemma_flag_or(q.v[15], color, s.graphics[idx]);
        let g = s.graphics;
        let hits_nb = row_hits(s.mem, i, x0, py, r, nb as int, g);
        let hits_b = row_hits(s.mem, i, x0, py, r, b, g);
        if hits_nb {
            let p = choose|p: int|
                0 <= p < 2048 && (#[trigger] row_mask(s.mem, i, x0, py, r, nb as int, p) & g[p])
                    != 0;
            lemma_pixel_index(p, py, x0, b);
            if p != idx {
                assert(row_mask(s.mem, i, x0, py, r, b, p) == row_mask(
                    s.mem,
                    i,
                    x0,
                    py,
                    r,
                    nb as int,
                    p,
                ));
                assert(hits_b);
            }
        }
        if hits_b {
            let p = choose|p: int|
                0 <= p < 2048 && (#[trigger] row_mask(s.mem, i, x0, py, r, b, p) & g[p]) != 0;
            lemma_pixel_index(p, py, x0, b);
            lemma_flag_or(0, 0, g[p]);
            assert(row_mask(s.mem, i, x0, py, r, b, p) == row_mask(
                s.mem,
                i,
                x0,
                py,
                r,
                nb as int,
                p,
            ));
            assert(hits_nb);
        }
        if (color & g[idx]) != 0 {
            assert(row_mask(s.mem, i, x0, py, r, nb as int, idx) == color);
            assert(hits_nb);
        }
    }
}

/// While sprite rows are drawn (coordinate registers other than `VF`), `VF`
/// (0 or 1) turns 1 exactly when a set bit lands on a pixel set at the start.
proof fn lemma_draw_rows_flag(s: CpuState, xr: int, yr: int, nr: nat)
    requires
        s.wf(),
        0 <= xr < 15,
        0 <= yr < 15,
        nr <= 16,
        s.v[15] <= 1,
    ensures
        s.draw_rows(xr, yr, nr).v[15] == (if s.v[15] == 1 || sprite_hits(
            s.mem,
            s.i as int,
            s.v[xr] as int,
            s.v[yr] as int,
            nr as int,
            s.graphics,
        ) {
            1u8
        } else {
            0u8
        }),
    decreases nr,
{
    lemma_xor_facts();
    let x0 = s.v[xr] as int;
    let y0 = s.v[yr] as int;
    let i = s.i as int;
    let g = s.graphics;
    if nr == 0 {
        if sprite_hits(s.mem, i, x0, y0, 0, g) {
            let p = choose|p: int|
                0 <= p < 2048 && (#[trigger] sprite_mask(s.mem, i, x0, y0, 0, p) & g[p]) != 0;
            lemma_flag_or(0, 0, g[p]);
        }
    } else {
        let k = nr - 1;
        lemma_draw_rows_flag(s, xr, yr, k as nat);
        lemma_draw_rows_xor(s, xr, yr, k as nat);
        lemma_draw_rows_frame(s, xr, yr, k as nat);
        let q = s.draw_rows(xr, yr, k as nat);
        let py = (q.v[yr] + k) % 32;
        assert(q.v[yr] == y0);
        assert(q.v[xr] == x0);
        lemma_draw_row_flag(q, xr, py, k, 8);
        let hits_nr = sprite_hits(s.mem, i, x0, y0, nr as int, g);
        let hits_k = sprite_hits(s.mem, i, x0, y0, k, g);
        let hits_row = row_hits(s.mem, i, x0, py, k, 8, q.graphics);
        if hits_nr {
            let p = choose|p: int|
                0 <= p < 2048 && (#[trigger] sprite_mask(s.mem, i, x0, y0, nr as int, p) & g[p])
                    != 0;
            lemma_line_index(p / 64, y0, k);
            if p / 64 == py {
                assert(q.graphics[p] == g[p] ^ sprite_mask(s.mem, i, x0, y0, k, p));
                assert(row_mask(s.mem, i, x0, py, k, 8, p) == sprite_mask(
                    s.mem,
                    i,
                    x0,
                    y0,
                    nr as int,
                    p,
                ));
                assert(hits_row);
            } else {
                assert(sprite_mask(s.mem, i, x0, y0, k, p) == sprite_mask(
                    s.mem,
                    i,
                    x0,
                    y0,
                    nr as int,
                    p,
                ));
                assert(hits_k);
            }
        }
        if hits_k {
            let p = choose|p: int|
                0 <= p < 2048 && (#[trigger] sprite_mask(s.mem, i, x0, y0, k, p) & g[p]) != 0;
            lemma_line_index(p / 64, y0, k);
            lemma_flag_or(0, 0, g[p]);
            assert(sprite_mask(s.mem, i, x0, y0, k, p) == sprite_mask(
                s.mem,
                i,
                x0,
                y0,
                nr as int,
                p,
            ));
            assert(hits_nr);
        }
        if hits_row {
            let p = choose|p: int|
                0 <= p < 2048 && (#[trigger] row_mask(s.mem, i, x0, py, k, 8, p) & q.graphics[p])
                    != 0;
            lemma_line_index(p / 64, y0, k);
            lemma_flag_or(0, 0, q.graphics[p]);
            assert(q.graphics[p] == g[p] ^ sprite_mask(s.mem, i, x0, y0, k, p));
            assert(q.graphics[p] == g[p]);
            assert(row_mask(s.mem, i, x0, py, k, 8, p) == sprite_mask(
                s.mem,
                i,
                x0,
                y0,
                nr as int,
                p,
            ));
            assert(hits_nr);
        }
    }
}

/// `Dxyn` whose coordinate registers are not `VF` sets `VF` to 1 exactly
/// when some set bit of the sprite lands on a pixel that was set (a
/// collision), and to 0 otherwise.
pub proof fn lemma_draw_collision(t: CpuState)
    requires
        t.wf(),
        group_of(t.opcode) == 0xD,
        x_of(t.opcode) != 15,
        y_of(t.opcode) != 15,
    ensures
        t.exec_draw().v[15] == (if sprite_hits(
            t.mem,
            t.i as int,
            t.v[x_of(t.opcode)] as int,
            t.v[y_of(t.opcode)] as int,
            n_of(t.opcode),
            t.graphics,
        ) {
            1u8
        } else {
            0u8
        }),
{
    let s0 = CpuState { v: t.v.update(15, 0u8), ..t };
    lemma_draw_rows_flag(s0, x_of(t.opcode), y_of(t.opcode), n_of(t.opcode) as nat);
}

proof fn lemma_erase_bit(g: u8, m: u8)
    by (bit_vector)
    requires
        g <= 1,
        m <= 1,
    ensures
        ((m & g) != 0) == (g == 1 && (g ^ m) == 0),
{
}

/// On a screen of zeros and ones, `Dxyn` whose coordinate registers are not
/// `VF` sets `VF` to 1 exactly when it turns some pixel off, and to 0 otherwise.
pub proof fn lemma_draw_flag_means_erased_pixel(t: CpuState)
    requires
        t.wf(),
        t.screen_is_binary(),
        group_of(t.opcode) == 0xD,
        x_of(t.opcode) != 15,
        y_of(t.opcode) != 15,
    ensures
        t.exec_draw().v[15] <= 1,
        (t.exec_draw().v[15] == 1) == (exists|p: int|
            0 <= p < 2048 && t.graphics[p] == 1 && #[trigger] t.exec_draw().graphics[p] == 0),
{
    let n = t.exec_draw();
    let x0 = t.v[x_of(t.opcode)] as int;
    let y0 = t.v[y_of(t.opcode)] as int;
    let i = t.i as int;
    let nr = n_of(t.opcode);
    lemma_draw_collision(t);
    lemma_draw_xors_sprite(t);
    if sprite_hits(t.mem, i, x0, y0, nr, t.graphics) {
        let p = choose|p: int|
            0 <= p < 2048 && (#[trigger] sprite_mask(t.mem, i, x0, y0, nr, p) & t.graphics[p]) != 0;
        let m = sprite_mask(t.mem, i, x0, y0, nr, p);
        if (p / 64 - y0) % 32 < nr && (p % 64 - x0) % 64 < 8 {
            lemma_row_bit_is_bit(t.mem[i + (p / 64 - y0) % 32], (p % 64 - x0) % 64);
        }
        lemma_erase_bit(t.graphics[p], m);
        assert(n.graphics[p] == 0);
    }
    if exists|p: int| 0 <= p < 2048 && t.graphics[p] == 1 && #[trigger] n.graphics[p] == 0 {
        let p = choose|p: int| 0 <= p < 2048 && t.graphics[p] == 1 && #[trigger] n.graphics[p] == 0;
        let m = sprite_mask(t.mem, i, x0, y0, nr, p);
        if (p / 64 - y0) % 32 < nr && (p % 64 - x0) % 64 < 8 {
            lemma_row_bit_is_bit(t.mem[i + (p / 64 - y0) % 32], (p % 64 - x0) % 64);
        }
        lemma_erase_bit(t.graphics[p], m);
        assert(sprite_hits(t.mem, i, x0, y0, nr, t.graphics));
    }
}

/// Two cycles that run the same `Dxyn` (coordinate registers other than
/// `VF`) one after the other leave the screen as it was before them.
pub proof fn lemma_repeated_draw_restores_screen(s: CpuState, r1: u8, r2: u8)
    requires
        s.wf(),
        s.can_step(),
        group_of(s.fetch()) == 0xD,
        x_of(s.fetch()) != 15,
        y_of(s.fetch()) != 15,
        s.step(r1).0.fetch() == s.fetch(),
    ensures
        s.step(r1).0.step(r2).0.graphics == s.graphics,
{
    lemma_xor_facts();
    let t = s.fetched();
    let s1 = s.step(r1).0;
    let t1 = s1.fetched();
    let x = x_of(t.opcode);
    let y = y_of(t.opcode);
    lemma_draw_xors_sprite(t);
    lemma_draw_rows_frame(
        CpuState { v: t.v.update(15, 0u8), ..t },
        x,
        y,
        n_of(t.opcode) as nat,
    );
    assert(t1.wf());
    lemma_draw_xors_sprite(t1);
    lemma_draw_rows_frame(
        CpuState { v: t1.v.update(15, 0u8), ..t1 },
        x,
        y,
        n_of(t.opcode) as nat,
    );
    let s2 = s1.step(r2).0;
    assert forall|p: int| 0 <= p < 2048 implies #[trigger] s2.graphics[p] == s.graphics[p] by {
        let m = sprite_mask(t.mem, t.i as int, t.v[x] as int, t.v[y] as int, n_of(t.opcode), p);
        assert(s1.graphics[p] == s.graphics[p] ^ m);
        assert(s2.graphics[p] == s1.graphics[p] ^ m);
    }
    assert(s2.graphics =~= s.graphics);
}

/// Every instruction but a return, a jump or a call moves on to the next
/// instruction; the conditional skips may move one instruction further, and
/// `Fx0A` stays on itself while it waits for a key.
pub proof fn lemma_step_advances_pc(s: CpuState, rnd: u8)
    requires
        s.wf(),
        s.can_step(),
        s.fetch() != 0x00EE,
        group_of(s.fetch()) != 0x1,
        group_of(s.fetch()) != 0x2,
        group_of(s.fetch()) != 0xB,
    ensures
        s.step(rnd).0.pc == s.pc + 2 || ({
            let g = group_of(s.fetch());
            &&& g == 0x3 || g == 0x4 || g == 0x5 || g == 0x9 || g == 0xE
            &&& s.step(rnd).0.pc == s.pc + 4
        }) || ({
            &&& group_of(s.fetch()) == 0xF
            &&& kk_of(s.fetch()) == 0x0A
            &&& s.step(rnd).0.pc == s.pc
        }),
{
    let t = s.fetched();
    if group_of(t.opcode) == 0xD {
        lemma_draw_rows_frame(
            CpuState { v: t.v.update(15, 0u8), ..t },
            x_of(t.opcode),
            y_of(t.opcode),
            n_of(t.opcode) as nat,
        );
    }
}

/// `Fx0A` waits for a key: with no key held, a cycle changes nothing but
/// the latched instruction word, so the next cycle runs `Fx0A` again; with a
/// key held, `Vx` gets a held key (the highest) and execution moves on.
pub proof fn lemma_wait_for_key(s: CpuState, rnd: u8)
    requires
        s.wf(),
        s.can_step(),
        group_of(s.fetch()) == 0xF,
        kk_of(s.fetch()) == 0x0A,
    ensures
        !key_held(s.keys) ==> s.step(rnd).0 == (CpuState { opcode: s.fetch(), ..s }),
        !key_held(s.keys) ==> s.step(rnd).0.fetch() == s.fetch(),
        key_held(s.keys) ==> s.step(rnd).0.keys[s.step(rnd).0.v[x_of(s.fetch())] as int],
        key_held(s.keys) ==> s.step(rnd).0.pc == s.pc + 2,
{
    let x = x_of(s.fetch());
    if key_held(s.keys) {
        lemma_last_pressed_is_held(s.keys, s.v[x], 16);
    }
}

/// When some key among the first `n` is held, `last_pressed` names a held key.
proof fn lemma_last_pressed_is_held(keys: Seq<bool>, old: u8, n: nat)
    requires
        n <= keys.len(),
        n <= 256,
        exists|k: int| 0 <= k < n && #[trigger] keys[k],
    ensures
        keys[last_pressed(keys, old, n) as int],
    decreases n,
{
    if !keys[n - 1] {
        let k = choose|k: int| 0 <= k < n && #[trigger] keys[k];
        assert(k < n - 1);
        lemma_last_pressed_is_held(keys, old, (n - 1) as nat);
    }
}

/// `k` ticks of the timers in a row.
pub open spec fn ticks(s: CpuState, k: nat) -> CpuState
    decreases k,
{
    if k == 0 {
        s
    } else {
        ticks(s, (k - 1) as nat).tick()
    }
}

/// After `k` ticks each timer has counted down by `k`, stopping at zero, and
/// nothing else has changed; a machine whose timers are both zero is left as
/// it is by a tick.
pub proof fn lemma_ticks(s: CpuState, k: nat)
    ensures
        ticks(s, k).delay == (if s.delay >= k { s.delay - k } else { 0 }),
        ticks(s, k).sound == (if s.sound >= k { s.sound - k } else { 0 }),
        ticks(s, k) == (CpuState { delay: ticks(s, k).delay, sound: ticks(s, k).sound, ..s }),
        k >= 255 ==> ticks(s, k).delay == 0 && ticks(s, k).sound == 0,
        s.delay == 0 && s.sound == 0 ==> s.tick() == s,
    decreases k,
{
    if k > 0 {
        lemma_ticks(s, (k - 1) as nat);
    }
}

/// The screen position of column `c` of sprite row `r` drawn at (`x0`, `y0`):
/// line `(y0 + r) % 32`, column `(x0 + c) % 64`, 64 pixels per line.
pub open spec fn pixel_index(x0: int, y0: int, r: int, c: int) -> int {
    ((y0 + r) % 32) * 64 + (x0 + c) % 64
}

/// Pixel by pixel: row `r`, column `c` of the sprite flips the pixel at
/// `pixel_index(Vx, Vy, r, c)` by bit `c` of the byte at `I + r`; pixels no
/// row and column reach keep their value.
proof fn lemma_draw_pixels(t: CpuState)
    requires
        t.wf(),
        group_of(t.opcode) == 0xD,
        x_of(t.opcode) != 15,
        y_of(t.opcode) != 15,
    ensures
        ({
            let vx = t.v[x_of(t.opcode)] as int;
            let vy = t.v[y_of(t.opcode)] as int;
            let h = n_of(t.opcode);
            let i = t.i as int;
            let n = t.exec_draw();
            &&& forall|r: int, c: int|
                0 <= r < h && 0 <= c < 8 ==> #[trigger] n.graphics[pixel_index(vx, vy, r, c)]
                    == t.graphics[pixel_index(vx, vy, r, c)] ^ ((t.mem[i + r] >> ((7 - c) as u8))
                    & 1u8)
            &&& forall|p: int|
                0 <= p < 2048 && ((p / 64 - vy) % 32 >= h || (p % 64 - vx) % 64 >= 8)
                    ==> #[trigger] n.graphics[p] == t.graphics[p]
        }),
{
    lemma_xor_facts();
    let vx = t.v[x_of(t.opcode)] as int;
    let vy = t.v[y_of(t.opcode)] as int;
    let h = n_of(t.opcode);
    let i = t.i as int;
    let n = t.exec_draw();
    lemma_draw_xors_sprite(t);
    assert forall|r: int, c: int| 0 <= r < h && 0 <= c < 8 implies #[trigger] n.graphics[pixel_index(
        vx,
        vy,
        r,
        c,
    )] == t.graphics[pixel_index(vx, vy, r, c)] ^ ((t.mem[i + r] >> ((7 - c) as u8)) & 1u8) by {
        let p = pixel_index(vx, vy, r, c);
        let py = (vy + r) % 32;
        lemma_pixel_index(p, py, vx, c);
        lemma_line_index(py, vy, r);
    }
}

/// The collision flag, by rows and columns: `VF` is 1 exactly when some set
/// bit of the sprite meets a pixel it has a bit in common with.
proof fn lemma_draw_flag_by_rows(t: CpuState)
    requires
        t.wf(),
        group_of(t.opcode) == 0xD,
        x_of(t.opcode) != 15,
        y_of(t.opcode) != 15,
    ensures
        ({
            let vx = t.v[x_of(t.opcode)] as int;
            let vy = t.v[y_of(t.opcode)] as int;
            let h = n_of(t.opcode);
            let i = t.i as int;
            t.exec_draw().v[15] == (if exists|r: int, c: int|
                0 <= r < h && 0 <= c < 8 && (((t.mem[i + r] >> ((7 - c) as u8)) & 1u8)
                    & #[trigger] t.graphics[pixel_index(vx, vy, r, c)]) != 0 {
                1u8
            } else {
                0u8
            })
        }),
{
    let vx = t.v[x_of(t.opcode)] as int;
    let vy = t.v[y_of(t.opcode)] as int;
    let h = n_of(t.opcode);
    let i = t.i as int;
    lemma_draw_collision(t);
    let hit_rc = exists|r: int, c: int|
        0 <= r < h && 0 <= c < 8 && (((t.mem[i + r] >> ((7 - c) as u8)) & 1u8)
            & #[trigger] t.graphics[pixel_index(vx, vy, r, c)]) != 0;
    let hit_p = sprite_hits(t.mem, i, vx, vy, h, t.graphics);
    if hit_p {
        let p = choose|p: int|
            0 <= p < 2048 && (#[trigger] sprite_mask(t.mem, i, vx, vy, h, p) & t.graphics[p]) != 0;
        let r = (p / 64 - vy) % 32;
        let c = (p % 64 - vx) % 64;
        if !(r < h && c < 8) {
            lemma_flag_or(0, 0, t.graphics[p]);
        }
        lemma_line_index(p / 64, vy, r);
        lemma_pixel_index(p, p / 64, vx, c);
        assert(p == pixel_index(vx, vy, r, c));
        assert(hit_rc);
    }
    if hit_rc {
        let (r, c) = choose|r: int, c: int|
            0 <= r < h && 0 <= c < 8 && (((t.mem[i + r] >> ((7 - c) as u8)) & 1u8)
                & #[trigger] t.graphics[pixel_index(vx, vy, r, c)]) != 0;
        let p = pixel_index(vx, vy, r, c);
        let py = (vy + r) % 32;
        lemma_pixel_index(p, py, vx, c);
        lemma_line_index(py, vy, r);
        assert(sprite_mask(t.mem, i, vx, vy, h, p) == (t.mem[i + r] >> ((7 - c) as u8)) & 1u8);
        assert(hit_p);
    }
}

/// `Dxyn` whose coordinate registers are not `VF`, said pixel by pixel in
/// terms of the two instruction bytes: for every sprite row `r < n` and
/// column `c < 8`, the pixel at `pixel_index(Vx, Vy, r, c)` flips exactly
/// when bit `c` of the byte at `I + r`, counted from the most significant
/// bit, is 1 (so a row byte `0xFF` flips eight pixels); every pixel that no
/// row and column reach keeps its value; `VF` becomes 1 exactly when some set
/// sprite bit meets a pixel it has a bit in common with (a collision), else
/// 0; nothing else changes but the program counter, which moves on.
pub proof fn law_draw(s: CpuState, rnd: u8)
    requires
        s.wf(),
        s.can_step(),
        s.mem[s.pc as int] / 16 == 0xD,
        s.mem[s.pc as int] % 16 != 15,
        s.mem[s.pc + 1] / 16 != 15,
    ensures
        ({
            let x = (s.mem[s.pc as int] % 16) as int;
            let y = (s.mem[s.pc + 1] / 16) as int;
            let h = (s.mem[s.pc + 1] % 16) as int;
            let vx = s.v[x] as int;
            let vy = s.v[y] as int;
            let i = s.i as int;
            let n = s.step(rnd).0;
            &&& s.step(rnd).1 is Ok
            &&& n.graphics.len() == 2048
            &&& forall|r: int, c: int|
                0 <= r < h && 0 <= c < 8 ==> #[trigger] n.graphics[pixel_index(vx, vy, r, c)]
                    == s.graphics[pixel_index(vx, vy, r, c)] ^ ((s.mem[i + r] >> ((7 - c) as u8))
                    & 1u8)
            &&& forall|p: int|
                0 <= p < 2048 && ((p / 64 - vy) % 32 >= h || (p % 64 - vx) % 64 >= 8)
                    ==> #[trigger] n.graphics[p] == s.graphics[p]
            &&& n.v[15] == (if exists|r: int, c: int|
                0 <= r < h && 0 <= c < 8 && (((s.mem[i + r] >> ((7 - c) as u8)) & 1u8)
                    & #[trigger] s.graphics[pixel_index(vx, vy, r, c)]) != 0 {
                1u8
            } else {
                0u8
            })
            &&& forall|k: int| 0 <= k < 15 ==> #[trigger] n.v[k] == s.v[k]
            &&& n == (CpuState {
                opcode: (s.mem[s.pc as int] * 256 + s.mem[s.pc + 1]) as u16,
                pc: (s.pc + 2) as u16,
                v: n.v,
                graphics: n.graphics,
                ..s
            })
        }),
{
    let t = s.fetched();
    lemma_step_draw(s, rnd);
    lemma_draw_pixels(t);
    lemma_draw_flag_by_rows(t);
    lemma_draw_xors_sprite(t);
}

/// A cycle on a `Dxyn` word is the draw of the fetched state, and the fields
/// of that word are those of the two bytes at the program counter.
proof fn lemma_step_draw(s: CpuState, rnd: u8)
    requires
        s.wf(),
        s.can_step(),
        s.mem[s.pc as int] / 16 == 0xD,
    ensures
        s.step(rnd) == (s.fetched().exec_draw(), Ok::<(), StepError>(())),
        s.fetched().wf(),
        s.fetched().v == s.v,
        s.fetched().i == s.i,
        s.fetched().mem == s.mem,
        s.fetched().graphics == s.graphics,
        s.fetched().opcode as int == s.mem[s.pc as int] * 256 + s.mem[s.pc + 1],
        group_of(s.fetched().opcode) == 0xD,
        x_of(s.fetched().opcode) == s.mem[s.pc as int] % 16,
        y_of(s.fetched().opcode) == s.mem[s.pc + 1] / 16,
        n_of(s.fetched().opcode) == s.mem[s.pc + 1] % 16,
        s.fetched().exec_draw() == (CpuState {
            v: s.fetched().exec_draw().v,
            graphics: s.fetched().exec_draw().graphics,
            ..s.fetched()
        }),
        s.fetched().exec_draw().wf(),
{
    let t = s.fetched();
    crate::instruction_laws::lemma_word_fields(s.mem[s.pc as int], s.mem[s.pc + 1]);
    assert(group_of(t.opcode) == 0xD);
    assert(t.execute(rnd) == Some(t.exec_draw()));
    lemma_draw_rows_frame(
        CpuState { v: t.v.update(15, 0u8), ..t },
        x_of(t.opcode),
        y_of(t.opcode),
        n_of(t.opcode) as nat,
    );
}

/// A machine that has just been switched on has every register, timer,
/// stack slot, pixel, key and memory byte at zero, except `I` and the program
/// counter, which both hold 0x200, where programs are loaded.
pub proof fn law_initial_state()
    ensures
        initial_state().wf(),
        initial_state().pc == 0x200,
        initial_state().i == 0x200,
        initial_state().sp == 0,
        initial_state().delay == 0,
        initial_state().sound == 0,
        initial_state().opcode == 0,
        forall|k: int| 0 <= k < 16 ==> #[trigger] initial_state().v[k] == 0,
        forall|k: int| 0 <= k < 16 ==> #[trigger] initial_state().stack[k] == 0,
        forall|k: int| 0 <= k < 16 ==> !#[trigger] initial_state().keys[k],
        forall|k: int| 0 <= k < 2048 ==> #[trigger] initial_state().graphics[k] == 0,
        forall|k: int| 0 <= k < 4096 ==> #[trigger] initial_state().mem[k] == 0,
{
}

/// Loading a program puts byte `k` of it at address `0x200 + k` and the
/// eighty font bytes at addresses 0 to 79, and leaves every other byte and
/// the size of memory as they were.
pub proof fn law_loaded_memory(mem: Seq<u8>, rom: Seq<u8>)
    requires
        mem.len() == 4096,
        rom.len() <= 3584,
    ensures
        loaded_memory(mem, rom).len() == 4096,
        forall|k: int| 0 <= k < rom.len() ==> #[trigger] loaded_memory(mem, rom)[0x200 + k] == rom[k],
        forall|a: int| 0 <= a < 80 ==> #[trigger] loaded_memory(mem, rom)[a] == font()[a],
        forall|a: int|
            (80 <= a < 0x200 || 0x200 + rom.len() <= a < 4096) ==> #[trigger] loaded_memory(
                mem,
                rom,
            )[a] == mem[a],
        font().len() == 80,
{
}

} // verus!
