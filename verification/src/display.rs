use vstd::prelude::*;

use crate::state::CpuState;

verus! {

/// The lower-case hexadecimal digit for `d` (`d < 16`).
pub open spec fn hex_digit_text(d: nat) -> Seq<char> {
    if d == 0 {
        "0"@
    } else if d == 1 {
        "1"@
    } else if d == 2 {
        "2"@
    } else if d == 3 {
        "3"@
    } else if d == 4 {
        "4"@
    } else if d == 5 {
        "5"@
    } else if d == 6 {
        "6"@
    } else if d == 7 {
        "7"@
    } else if d == 8 {
        "8"@
    } else if d == 9 {
        "9"@
    } else if d == 10 {
        "a"@
    } else if d == 11 {
        "b"@
    } else if d == 12 {
        "c"@
    } else if d == 13 {
        "d"@
    } else if d == 14 {
        "e"@
    } else {
        "f"@
    }
}

/// `n` in lower-case hexadecimal without leading zeros (`0` for zero).
pub open spec fn hex_text(n: nat) -> Seq<char>
    decreases n,
{
    if n < 16 {
        hex_digit_text(n)
    } else {
        hex_text(n / 16) + hex_digit_text(n % 16)
    }
}

/// A lower-case hexadecimal digit character: `0`-`9` or `a`-`f`.
pub open spec fn is_hex_char(c: char) -> bool {
    (48 <= c as int <= 57) || (97 <= c as int <= 102)
}

/// The value of a hexadecimal digit character.
pub open spec fn hex_char_value(c: char) -> int {
    if c as int <= 57 {
        c as int - 48
    } else {
        c as int - 87
    }
}

/// The number a string of hexadecimal digits spells, most significant first.
pub open spec fn hex_value(t: Seq<char>) -> int
    decreases t.len(),
{
    if t.len() == 0 {
        0
    } else {
        hex_value(t.drop_last()) * 16 + hex_char_value(t.last())
    }
}

/// The text of a digit is the one character `0`-`9`, `a`-`f` that has its value.
proof fn lemma_hex_digit_char(d: nat)
    requires
        d < 16,
    ensures
        hex_digit_text(d).len() == 1,
        is_hex_char(hex_digit_text(d)[0]),
        hex_char_value(hex_digit_text(d)[0]) == d,
{
    reveal_strlit("0");
    reveal_strlit("1");
    reveal_strlit("2");
    reveal_strlit("3");
    reveal_strlit("4");
    reveal_strlit("5");
    reveal_strlit("6");
    reveal_strlit("7");
    reveal_strlit("8");
    reveal_strlit("9");
    reveal_strlit("a");
    reveal_strlit("b");
    reveal_strlit("c");
    reveal_strlit("d");
    reveal_strlit("e");
    reveal_strlit("f");
}

/// `hex_text(n)` is `n` in lower-case hexadecimal: it is made of digit
/// characters, spells `n`, and has no leading zero (only `0` itself starts
/// with `0`).
pub proof fn law_hex_text(n: nat)
    ensures
        hex_text(n).len() >= 1,
        forall|k: int| 0 <= k < hex_text(n).len() ==> is_hex_char(#[trigger] hex_text(n)[k]),
        hex_value(hex_text(n)) == n,
        n > 0 ==> hex_text(n)[0] != '0',
    decreases n,
{
    if n < 16 {
        lemma_hex_digit_char(n);
        let t = hex_text(n);
        assert(t.drop_last() =~= Seq::<char>::empty());
        assert(hex_value(t.drop_last()) == 0);
        assert(t.last() == t[0]);
        assert(hex_value(t) == n);
        reveal_strlit("0");
        if n > 0 {
            assert(hex_char_value(t[0]) != 0);
        }
    } else {
        law_hex_text(n / 16);
        lemma_hex_digit_char(n % 16);
        let a = hex_text(n / 16);
        let d = hex_digit_text(n % 16);
        let t = hex_text(n);
        assert(t == a + d);
        assert(t.drop_last() =~= a);
        assert(t.last() == d[0]);
        assert(hex_value(t) == hex_value(a) * 16 + (n % 16) as int);
        assert((n / 16) * 16 + n % 16 == n);
        assert forall|k: int| 0 <= k < t.len() implies is_hex_char(#[trigger] t[k]) by {
            if k < a.len() {
                assert(t[k] == a[k]);
            }
        }
        assert(t[0] == a[0]);
    }
}

/// The one-glance report of a machine: the sixteen registers on two lines,
/// then the stack pointer, the program counter and the two timers. The field
/// labelled `DELAY` shows the sound timer and the one labelled `SOUND` shows
/// the delay timer.
pub open spec fn state_text(s: CpuState) -> Seq<char> {
    report_text(s.v, s.sp, s.pc, s.delay, s.sound)
}

/// The report of `state_text`, from the values it shows.
pub open spec fn report_text(v: Seq<u8>, sp: u8, pc: u16, delay: u8, sound: u8) -> Seq<char> {
    "V0:"@ + hex_text(v[0] as nat) + ", V1:"@ + hex_text(v[1] as nat) + ", V2:"@ + hex_text(
        v[2] as nat,
    ) + ", V3:"@ + hex_text(v[3] as nat) + ", V4:"@ + hex_text(v[4] as nat) + ", V5:"@
        + hex_text(v[5] as nat) + ", V6:"@ + hex_text(v[6] as nat) + ", V7:"@ + hex_text(
        v[7] as nat,
    ) + "\nV8:"@ + hex_text(v[8] as nat) + ", V9:"@ + hex_text(v[9] as nat) + ", VA:"@
        + hex_text(v[10] as nat) + ", VB:"@ + hex_text(v[11] as nat) + ", VC:"@ + hex_text(
        v[12] as nat,
    ) + ", VD:"@ + hex_text(v[13] as nat) + ", VE:"@ + hex_text(v[14] as nat) + ", VF:"@
        + hex_text(v[15] as nat) + "\nSP:"@ + hex_text(sp as nat) + ", PC:"@ + hex_text(
        pc as nat,
    ) + ", DELAY:"@ + hex_text(sound as nat) + ", SOUND:"@ + hex_text(delay as nat)
}

/// The text of one hexadecimal digit.
fn hex_digit(d: u16) -> (t: &'static str)
    requires
        d < 16,
    ensures
        t@ == hex_digit_text(d as nat),
{
    if d == 0 {
        "0"
    } else if d == 1 {
        "1"
    } else if d == 2 {
        "2"
    } else if d == 3 {
        "3"
    } else if d == 4 {
        "4"
    } else if d == 5 {
        "5"
    } else if d == 6 {
        "6"
    } else if d == 7 {
        "7"
    } else if d == 8 {
        "8"
    } else if d == 9 {
        "9"
    } else if d == 10 {
        "a"
    } else if d == 11 {
        "b"
    } else if d == 12 {
        "c"
    } else if d == 13 {
        "d"
    } else if d == 14 {
        "e"
    } else {
        "f"
    }
}

/// Appends `n` in lower-case hexadecimal without leading zeros.
pub fn push_hex(out: &mut String, n: u16)
    ensures
        final(out)@ == old(out)@ + hex_text(n as nat),
    decreases n,
{
    if n >= 16 {
        push_hex(out, n / 16);
    }
    out.append(hex_digit(n % 16));
    proof {
        if n >= 16 {
            assert(final(out)@ =~= old(out)@ + hex_text(n as nat));
        }
    }
}

/// Appends a label and then a value in hexadecimal.
fn push_field(out: &mut String, label: &str, n: u16)
    ensures
        final(out)@ == old(out)@ + label@ + hex_text(n as nat),
{
    out.append(label);
    push_hex(out, n);
    assert(final(out)@ =~= old(out)@ + label@ + hex_text(n as nat));
}

/// The report of `report_text` for the given values.
pub fn render_state(
    v: &[u8; 16],
    sp: u8,
    pc: u16,
    delay: u8,
    sound: u8,
) -> (text: String)
    ensures
        text@ == report_text(v@, sp, pc, delay, sound),
{
    let mut out = String::new();
    push_field(&mut out, "V0:", v[0] as u16);
    push_field(&mut out, ", V1:", v[1] as u16);
    push_field(&mut out, ", V2:", v[2] as u16);
    push_field(&mut out, ", V3:", v[3] as u16);
    push_field(&mut out, ", V4:", v[4] as u16);
    push_field(&mut out, ", V5:", v[5] as u16);
    push_field(&mut out, ", V6:", v[6] as u16);
    push_field(&mut out, ", V7:", v[7] as u16);
    push_field(&mut out, "\nV8:", v[8] as u16);
    push_field(&mut out, ", V9:", v[9] as u16);
    push_field(&mut out, ", VA:", v[10] as u16);
    push_field(&mut out, ", VB:", v[11] as u16);
    push_field(&mut out, ", VC:", v[12] as u16);
    push_field(&mut out, ", VD:", v[13] as u16);
    push_field(&mut out, ", VE:", v[14] as u16);
    push_field(&mut out, ", VF:", v[15] as u16);
    push_field(&mut out, "\nSP:", sp as u16);
    push_field(&mut out, ", PC:", pc);
    push_field(&mut out, ", DELAY:", sound as u16);
    push_field(&mut out, ", SOUND:", delay as u16);
    assert(out@ =~= report_text(v@, sp, pc, delay, sound));
    out
}

} // verus!
