use vstd::prelude::*;

verus! {

/// The keypad key that a host keyboard key stands for. The keys `1 2 3 4`,
/// `q w e r`, `a s d f` and `z c v` map to the sixteen keypad keys; every
/// other key (including `x`) maps to none.
pub open spec fn keypad_key_spec(c: char) -> Option<usize> {
    if c == '1' {
        Some(0x1)
    } else if c == '2' {
        Some(0x2)
    } else if c == '3' {
        Some(0x3)
    } else if c == '4' {
        Some(0xC)
    } else if c == 'q' {
        Some(0x4)
    } else if c == 'w' {
        Some(0x5)
    } else if c == 'e' {
        Some(0x6)
    } else if c == 'r' {
        Some(0xD)
    } else if c == 'a' {
        Some(0x7)
    } else if c == 's' {
        Some(0x8)
    } else if c == 'd' {
        Some(0x9)
    } else if c == 'f' {
        Some(0xE)
    } else if c == 'z' {
        Some(0xA)
    } else if c == 'c' {
        Some(0x0)
    } else if c == 'v' {
        Some(0xF)
    } else {
        None
    }
}

/// Maps a host keyboard key, given by its lower-case character, to a keypad key.
pub fn keypad_key(c: char) -> (k: Option<usize>)
    ensures
        k == keypad_key_spec(c),
        k matches Some(i) ==> i < 16,
{
    match c {
        '1' => Some(0x1),
        '2' => Some(0x2),
        '3' => Some(0x3),
        '4' => Some(0xC),
        'q' => Some(0x4),
        'w' => Some(0x5),
        'e' => Some(0x6),
        'r' => Some(0xD),
        'a' => Some(0x7),
        's' => Some(0x8),
        'd' => Some(0x9),
        'f' => Some(0xE),
        'z' => Some(0xA),
        'c' => Some(0x0),
        'v' => Some(0xF),
        _ => None,
    }
}

/// The colour a frame-buffer byte is shown in: black for 0, white otherwise.
pub fn pixel_rgb(value: u8) -> (rgb: (u8, u8, u8))
    ensures
        rgb == (if value == 0 { (0u8, 0u8, 0u8) } else { (255u8, 255u8, 255u8) }),
{
    if value == 0 {
        (0, 0, 0)
    } else {
        (255, 255, 255)
    }
}

} // verus!
