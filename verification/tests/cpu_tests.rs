use chip8::bytes::u16_from_u8;
use chip8::cpu::Cpu;
use chip8::host::{keypad_key, pixel_rgb};
use chip8::semantics::StepError;

/// A machine with `program` loaded at 0x200.
fn machine(program: &[u16]) -> Cpu {
    let mut rom = Vec::new();
    for word in program {
        rom.push((word >> 8) as u8);
        rom.push((word & 0xFF) as u8);
    }
    let mut cpu = Cpu::new();
    cpu.load_rom(&rom);
    cpu
}

/// Runs `n` cycles, each of which must be able to run and must succeed.
fn run(cpu: &mut Cpu, n: usize) {
    for _ in 0..n {
        assert!(cpu.can_step());
        assert_eq!(cpu.step(), Ok(()));
    }
}

/// The value the report shows for `name`.
fn field(cpu: &Cpu, name: &str) -> u32 {
    let text = cpu.to_string();
    for line in text.split('\n') {
        for part in line.split(", ") {
            let mut it = part.split(':');
            let label = it.next().unwrap();
            let value = it.next().unwrap();
            if label == name {
                return u32::from_str_radix(value, 16).unwrap();
            }
        }
    }
    panic!("no field {}", name);
}

fn reg(cpu: &Cpu, r: usize) -> u32 {
    field(cpu, &format!("V{:X}", r))
}

fn pixel(cpu: &Cpu, x: usize, y: usize) -> u8 {
    cpu.pixel(y * 64 + x)
}

#[test]
fn new_machine_report() {
    let cpu = Cpu::new();
    assert_eq!(
        cpu.to_string(),
        "V0:0, V1:0, V2:0, V3:0, V4:0, V5:0, V6:0, V7:0\n\
         V8:0, V9:0, VA:0, VB:0, VC:0, VD:0, VE:0, VF:0\n\
         SP:0, PC:200, DELAY:0, SOUND:0"
    );
    assert!(cpu.graphics().iter().all(|&p| p == 0));
    assert!(cpu.keys().iter().all(|&k| !k));
}

#[test]
fn report_shows_hex_without_leading_zeros() {
    let mut cpu = machine(&[0x60AB, 0x6F0C, 0x6E10, 0x1345]);
    run(&mut cpu, 4);
    assert_eq!(
        cpu.to_string(),
        "V0:ab, V1:0, V2:0, V3:0, V4:0, V5:0, V6:0, V7:0\n\
         V8:0, V9:0, VA:0, VB:0, VC:0, VD:0, VE:10, VF:c\n\
         SP:0, PC:345, DELAY:0, SOUND:0"
    );
}

#[test]
fn report_swaps_the_timer_labels() {
    // DELAY shows the sound timer and SOUND shows the delay timer.
    let mut cpu = machine(&[0x6007, 0xF015, 0x6103, 0xF118]);
    run(&mut cpu, 4);
    assert_eq!(field(&cpu, "DELAY"), 3);
    assert_eq!(field(&cpu, "SOUND"), 7);
}

#[test]
fn u16_from_u8_is_big_endian() {
    let buf = [0x12u8, 0x34, 0x56, 0xFF];
    assert_eq!(u16_from_u8(&buf, 0), 0x1234);
    assert_eq!(u16_from_u8(&buf, 1), 0x3456);
    assert_eq!(u16_from_u8(&buf, 2), 0x56FF);
}

#[test]
fn load_rom_places_program_and_font() {
    // I = 0x200, read V0 from memory: the first program byte.
    let mut cpu = machine(&[0xA200, 0xF065]);
    run(&mut cpu, 2);
    assert_eq!(reg(&cpu, 0), 0xA2);
    // I = 0, read V0 through V4 from memory: the glyph of 0.
    let mut cpu = machine(&[0xA000, 0xF465]);
    run(&mut cpu, 2);
    assert_eq!(
        (reg(&cpu, 0), reg(&cpu, 1), reg(&cpu, 2), reg(&cpu, 3), reg(&cpu, 4)),
        (0xF0, 0x90, 0x90, 0x90, 0xF0)
    );
    // The glyph of F ends the font at 79.
    let mut cpu = machine(&[0xA04B, 0xF465]);
    run(&mut cpu, 2);
    assert_eq!(
        (reg(&cpu, 0), reg(&cpu, 1), reg(&cpu, 2), reg(&cpu, 3), reg(&cpu, 4)),
        (0xF0, 0x80, 0xF0, 0x80, 0x80)
    );
}

#[test]
fn load_rom_of_maximal_size() {
    let rom = vec![0x12u8; 3584];
    let mut cpu = Cpu::new();
    cpu.load_rom(&rom);
    // 0x1212: jump to 0x212.
    run(&mut cpu, 1);
    assert_eq!(field(&cpu, "PC"), 0x212);
}

#[test]
fn timers_count_down_and_stop_at_zero() {
    let mut cpu = machine(&[0x6002, 0xF015, 0x6101, 0xF118]);
    run(&mut cpu, 4);
    cpu.timers();
    assert_eq!(field(&cpu, "SOUND"), 1); // the delay timer
    assert_eq!(field(&cpu, "DELAY"), 0); // the sound timer
    cpu.timers();
    cpu.timers();
    assert_eq!(field(&cpu, "SOUND"), 0);
    assert_eq!(field(&cpu, "DELAY"), 0);
}

#[test]
fn delay_timer_reads_back() {
    let mut cpu = machine(&[0x6009, 0xF015, 0xF307]);
    run(&mut cpu, 2);
    cpu.timers();
    run(&mut cpu, 1);
    assert_eq!(reg(&cpu, 3), 8);
}

#[test]
fn jump_and_jump_with_offset() {
    let mut cpu = machine(&[0x1208, 0, 0, 0, 0x6010, 0xB300]);
    run(&mut cpu, 1);
    assert_eq!(field(&cpu, "PC"), 0x208);
    run(&mut cpu, 2);
    assert_eq!(field(&cpu, "PC"), 0x310);
}

#[test]
fn call_then_return_resumes_after_the_call() {
    let mut cpu = machine(&[0x2206, 0x6001, 0x0000, 0x00EE]);
    run(&mut cpu, 1);
    assert_eq!(field(&cpu, "PC"), 0x206);
    assert_eq!(field(&cpu, "SP"), 1);
    run(&mut cpu, 1);
    assert_eq!(field(&cpu, "PC"), 0x202);
    assert_eq!(field(&cpu, "SP"), 0);
    run(&mut cpu, 1);
    assert_eq!(reg(&cpu, 0), 1);
}

#[test]
fn return_with_empty_stack_cannot_step() {
    let cpu = machine(&[0x00EE]);
    assert!(!cpu.can_step());
}

#[test]
fn call_depth_is_limited() {
    // Calls to itself: slot 0 of the stack is never used, so the sixteenth
    // call would overflow the stack.
    let mut cpu = machine(&[0x2200]);
    for _ in 0..15 {
        run(&mut cpu, 1);
    }
    assert_eq!(field(&cpu, "SP"), 15);
    assert!(!cpu.can_step());
}

#[test]
fn fetch_at_the_end_of_memory_cannot_step() {
    let mut cpu = machine(&[0x1FFF]);
    run(&mut cpu, 1);
    assert_eq!(field(&cpu, "PC"), 0xFFF);
    assert!(!cpu.can_step());
    let mut cpu = machine(&[0x1FFE]);
    run(&mut cpu, 1);
    assert!(cpu.can_step());
}

#[test]
fn skips() {
    // 3xkk skips when equal.
    let mut cpu = machine(&[0x6005, 0x3005]);
    run(&mut cpu, 2);
    assert_eq!(field(&cpu, "PC"), 0x206);
    let mut cpu = machine(&[0x6005, 0x3006]);
    run(&mut cpu, 2);
    assert_eq!(field(&cpu, "PC"), 0x204);
    // 4xkk skips when different.
    let mut cpu = machine(&[0x6005, 0x4006]);
    run(&mut cpu, 2);
    assert_eq!(field(&cpu, "PC"), 0x206);
    let mut cpu = machine(&[0x6005, 0x4005]);
    run(&mut cpu, 2);
    assert_eq!(field(&cpu, "PC"), 0x204);
    // 5xy0 skips when the registers are equal; the low nibble is not checked.
    let mut cpu = machine(&[0x6005, 0x6105, 0x5017]);
    run(&mut cpu, 3);
    assert_eq!(field(&cpu, "PC"), 0x208);
    // 9xy0 skips when the registers differ.
    let mut cpu = machine(&[0x6005, 0x6106, 0x9010]);
    run(&mut cpu, 3);
    assert_eq!(field(&cpu, "PC"), 0x208);
    let mut cpu = machine(&[0x6005, 0x6105, 0x9010]);
    run(&mut cpu, 3);
    assert_eq!(field(&cpu, "PC"), 0x206);
}

#[test]
fn load_and_add_immediate_wraps() {
    let mut cpu = machine(&[0x60F0, 0x7020, 0x7105]);
    run(&mut cpu, 3);
    assert_eq!(reg(&cpu, 0), 0x10);
    assert_eq!(reg(&cpu, 1), 5);
    assert_eq!(reg(&cpu, 15), 0);
}

#[test]
fn logic_operations() {
    let mut cpu = machine(&[0x600C, 0x610A, 0x8010, 0x620C, 0x8211, 0x630C, 0x8312, 0x640C, 0x8413]);
    run(&mut cpu, 9);
    assert_eq!(reg(&cpu, 0), 0x0A);
    assert_eq!(reg(&cpu, 2), 0x0E);
    assert_eq!(reg(&cpu, 3), 0x08);
    assert_eq!(reg(&cpu, 4), 0x06);
}

#[test]
fn add_with_carry() {
    let mut cpu = machine(&[0x60C8, 0x6164, 0x8014]);
    run(&mut cpu, 3);
    assert_eq!(reg(&cpu, 0), 44);
    assert_eq!(reg(&cpu, 15), 1);
    let mut cpu = machine(&[0x6064, 0x6164, 0x8014]);
    run(&mut cpu, 3);
    assert_eq!(reg(&cpu, 0), 200);
    assert_eq!(reg(&cpu, 15), 0);
    // The carry of exactly 256 is a carry.
    let mut cpu = machine(&[0x6080, 0x6180, 0x8014]);
    run(&mut cpu, 3);
    assert_eq!(reg(&cpu, 0), 0);
    assert_eq!(reg(&cpu, 15), 1);
}

#[test]
fn add_reads_the_flag_after_writing_it() {
    // 8F04 with VF = 0x10, V0 = 0xF8: the flag is the carry of 0x10 + 0xF8,
    // then VF = VF + V0 with the new flag.
    let mut cpu = machine(&[0x6F10, 0x60F8, 0x8F04]);
    run(&mut cpu, 3);
    assert_eq!(reg(&cpu, 15), 0xF9);
}

#[test]
fn subtraction_flags() {
    let mut cpu = machine(&[0x6009, 0x6104, 0x8015]);
    run(&mut cpu, 3);
    assert_eq!(reg(&cpu, 0), 5);
    assert_eq!(reg(&cpu, 15), 1);
    let mut cpu = machine(&[0x6004, 0x6109, 0x8015]);
    run(&mut cpu, 3);
    assert_eq!(reg(&cpu, 0), 0xFB);
    assert_eq!(reg(&cpu, 15), 0);
    // Equal operands: no flag.
    let mut cpu = machine(&[0x6004, 0x6104, 0x8015]);
    run(&mut cpu, 3);
    assert_eq!(reg(&cpu, 0), 0);
    assert_eq!(reg(&cpu, 15), 0);
    // SUBN
    let mut cpu = machine(&[0x6004, 0x6109, 0x8017]);
    run(&mut cpu, 3);
    assert_eq!(reg(&cpu, 0), 5);
    assert_eq!(reg(&cpu, 15), 1);
    let mut cpu = machine(&[0x6009, 0x6104, 0x8017]);
    run(&mut cpu, 3);
    assert_eq!(reg(&cpu, 0), 0xFB);
    assert_eq!(reg(&cpu, 15), 0);
}

#[test]
fn shifts() {
    let mut cpu = machine(&[0x6005, 0x8006]);
    run(&mut cpu, 2);
    assert_eq!(reg(&cpu, 0), 2);
    assert_eq!(reg(&cpu, 15), 1);
    let mut cpu = machine(&[0x6081, 0x800E]);
    run(&mut cpu, 2);
    assert_eq!(reg(&cpu, 0), 2);
    assert_eq!(reg(&cpu, 15), 1);
    let mut cpu = machine(&[0x6041, 0x800E]);
    run(&mut cpu, 2);
    assert_eq!(reg(&cpu, 0), 0x82);
    assert_eq!(reg(&cpu, 15), 0);
}

#[test]
fn invalid_opcodes_are_reported() {
    for word in [0x0123u16, 0x8008, 0x800F, 0x9011, 0xE000, 0xE19F, 0xF000, 0xF0FF] {
        let mut cpu = machine(&[word]);
        assert!(cpu.can_step());
        assert_eq!(cpu.step(), Err(StepError::InvalidOpcode(word)));
        // The word was fetched and the program counter moved past it.
        assert_eq!(field(&cpu, "PC"), 0x202);
    }
}

#[test]
fn index_register_operations() {
    let mut cpu = machine(&[0xA123, 0x6010, 0xF01E, 0x6103, 0xF129]);
    run(&mut cpu, 3);
    // I = 0x133: store V0 there and read it back into V5.
    let mut cpu2 = machine(&[0xA123, 0x6010, 0xF01E, 0x6077, 0xF055, 0x6000, 0xF065]);
    run(&mut cpu2, 7);
    assert_eq!(reg(&cpu2, 0), 0x77);
    run(&mut cpu, 2);
    // I = 3 * 5 = 15: the glyph of 3 starts with 0xF0, 0x10.
    let mut cpu3 = machine(&[0x6103, 0xF129, 0xF165]);
    run(&mut cpu3, 3);
    assert_eq!((reg(&cpu3, 0), reg(&cpu3, 1)), (0xF0, 0x10));
}

#[test]
fn font_lookup_of_large_values_cannot_step() {
    // 52 * 5 does not fit in a byte.
    let mut cpu = machine(&[0x6034, 0xF029]);
    run(&mut cpu, 1);
    assert!(!cpu.can_step());
    let mut cpu = machine(&[0x6033, 0xF029, 0xF065]);
    run(&mut cpu, 2);
    assert!(cpu.can_step());
}

#[test]
fn random_byte_is_masked() {
    let mut cpu = machine(&[0xC0AB]);
    assert_eq!(cpu.step_with(0xFF), Ok(()));
    assert_eq!(reg(&cpu, 0), 0xAB);
    let mut cpu = machine(&[0xC00F]);
    assert_eq!(cpu.step_with(0x5A), Ok(()));
    assert_eq!(reg(&cpu, 0), 0x0A);
    let mut cpu = machine(&[0xC300]);
    run(&mut cpu, 1);
    assert_eq!(reg(&cpu, 3), 0);
    for _ in 0..20 {
        let mut cpu = machine(&[0xC30F]);
        run(&mut cpu, 1);
        assert!(reg(&cpu, 3) <= 0x0F);
    }
}

#[test]
fn random_byte_varies() {
    let mut seen = std::collections::HashSet::new();
    for _ in 0..64 {
        let mut cpu = machine(&[0xC0FF]);
        run(&mut cpu, 1);
        seen.insert(reg(&cpu, 0));
    }
    assert!(seen.len() > 1);
}

#[test]
fn step_with_ignores_the_random_byte_elsewhere() {
    let mut a = machine(&[0x6012]);
    let mut b = machine(&[0x6012]);
    assert_eq!(a.step_with(1), Ok(()));
    assert_eq!(b.step_with(200), Ok(()));
    assert_eq!(a.to_string(), b.to_string());
}

#[test]
fn draw_glyph_and_erase_it() {
    // I = 0 (glyph 0), V0 = V1 = 0, draw 5 rows at (0, 0).
    let mut cpu = machine(&[0xA000, 0xD015, 0xD015]);
    run(&mut cpu, 2);
    assert_eq!(reg(&cpu, 15), 0);
    // Row 0 is 0xF0: four pixels on.
    assert_eq!(
        (pixel(&cpu, 0, 0), pixel(&cpu, 1, 0), pixel(&cpu, 2, 0), pixel(&cpu, 3, 0), pixel(&cpu, 4, 0)),
        (1, 1, 1, 1, 0)
    );
    // Row 1 is 0x90.
    assert_eq!(
        (pixel(&cpu, 0, 1), pixel(&cpu, 1, 1), pixel(&cpu, 2, 1), pixel(&cpu, 3, 1)),
        (1, 0, 0, 1)
    );
    assert_eq!(cpu.graphics().iter().filter(|&&p| p == 1).count(), 14);
    // Drawing it again erases it and reports a collision.
    run(&mut cpu, 1);
    assert_eq!(reg(&cpu, 15), 1);
    assert!(cpu.graphics().iter().all(|&p| p == 0));
}

#[test]
fn draw_wraps_around_the_edges() {
    // V0 = 62, V1 = 31: the glyph of 0 wraps to the left and top.
    let mut cpu = machine(&[0x603E, 0x611F, 0xA000, 0xD012]);
    run(&mut cpu, 4);
    assert_eq!((pixel(&cpu, 62, 31), pixel(&cpu, 63, 31), pixel(&cpu, 0, 31), pixel(&cpu, 1, 31)), (1, 1, 1, 1));
    assert_eq!((pixel(&cpu, 62, 0), pixel(&cpu, 63, 0), pixel(&cpu, 0, 0), pixel(&cpu, 1, 0)), (1, 0, 0, 1));
    assert_eq!(cpu.graphics().iter().filter(|&&p| p == 1).count(), 6);
}

#[test]
fn draw_with_zero_rows_clears_the_flag() {
    let mut cpu = machine(&[0x6F01, 0xD010]);
    run(&mut cpu, 2);
    assert_eq!(reg(&cpu, 15), 0);
    assert!(cpu.graphics().iter().all(|&p| p == 0));
}

#[test]
fn draw_collision_on_overlap_only() {
    // Glyph 1 (0x20 first row) next to glyph 0: no shared pixels at x = 8.
    let mut cpu = machine(&[0xA000, 0xD015, 0x6008, 0xA005, 0xD015]);
    run(&mut cpu, 5);
    assert_eq!(reg(&cpu, 15), 0);
    // Overlapping at x = 0: glyph 1 row 0 (0x20) hits glyph 0 row 0 (0xF0).
    let mut cpu = machine(&[0xA000, 0xD015, 0xA005, 0xD015]);
    run(&mut cpu, 4);
    assert_eq!(reg(&cpu, 15), 1);
    assert_eq!(pixel(&cpu, 2, 0), 0);
}

#[test]
fn draw_past_the_end_of_memory_cannot_step() {
    let cpu = machine(&[0xAFFE, 0xD013]);
    let mut cpu = cpu;
    run(&mut cpu, 1);
    assert!(!cpu.can_step());
    let mut cpu = machine(&[0xAFFE, 0xD012]);
    run(&mut cpu, 2);
}

#[test]
fn clear_screen() {
    let mut cpu = machine(&[0xA000, 0xD015, 0x00E0]);
    run(&mut cpu, 3);
    assert!(cpu.graphics().iter().all(|&p| p == 0));
    assert_eq!(field(&cpu, "PC"), 0x206);
}

#[test]
fn key_skips() {
    let mut cpu = machine(&[0x6007, 0xE09E]);
    cpu.set_key(7, true);
    run(&mut cpu, 2);
    assert_eq!(field(&cpu, "PC"), 0x206);
    let mut cpu = machine(&[0x6007, 0xE09E]);
    run(&mut cpu, 2);
    assert_eq!(field(&cpu, "PC"), 0x204);
    let mut cpu = machine(&[0x6007, 0xE0A1]);
    run(&mut cpu, 2);
    assert_eq!(field(&cpu, "PC"), 0x206);
    let mut cpu = machine(&[0x6007, 0xE0A1]);
    cpu.set_key(7, true);
    run(&mut cpu, 2);
    assert_eq!(field(&cpu, "PC"), 0x204);
}

#[test]
fn key_skip_with_out_of_range_key_cannot_step() {
    let mut cpu = machine(&[0x6010, 0xE09E]);
    run(&mut cpu, 1);
    assert!(!cpu.can_step());
}

#[test]
fn wait_for_key_takes_the_highest_held_key() {
    let mut cpu = machine(&[0x6577, 0xF50A]);
    cpu.set_key(3, true);
    cpu.set_key(9, true);
    run(&mut cpu, 2);
    assert_eq!(reg(&cpu, 5), 9);
    assert_eq!(field(&cpu, "PC"), 0x204);
}

#[test]
fn wait_for_key_waits_while_no_key_is_held() {
    let mut cpu = machine(&[0x6577, 0xF50A, 0x6001]);
    run(&mut cpu, 1);
    for _ in 0..5 {
        run(&mut cpu, 1);
        assert_eq!(field(&cpu, "PC"), 0x202);
        assert_eq!(reg(&cpu, 5), 0x77);
    }
    cpu.set_key(0xB, true);
    run(&mut cpu, 1);
    assert_eq!(field(&cpu, "PC"), 0x204);
    assert_eq!(reg(&cpu, 5), 0xB);
    run(&mut cpu, 1);
    assert_eq!(reg(&cpu, 0), 1);
}

#[test]
fn bcd_digits() {
    let mut cpu = machine(&[0x60FE, 0xA300, 0xF033, 0xF265]);
    run(&mut cpu, 4);
    assert_eq!((reg(&cpu, 0), reg(&cpu, 1), reg(&cpu, 2)), (2, 5, 4));
    let mut cpu = machine(&[0x6007, 0xA300, 0xF033, 0xF265]);
    run(&mut cpu, 4);
    assert_eq!((reg(&cpu, 0), reg(&cpu, 1), reg(&cpu, 2)), (0, 0, 7));
}

#[test]
fn bcd_at_the_end_of_memory_cannot_step() {
    let mut cpu = machine(&[0xAFFE, 0xF033]);
    run(&mut cpu, 1);
    assert!(!cpu.can_step());
}

#[test]
fn store_and_load_registers_include_vx() {
    // F255 stores V0..V2; F265 loads V0..V2; V3 is not touched.
    let mut cpu = machine(&[
        0x6011, 0x6122, 0x6233, 0x6344, 0xA300, 0xF255, 0x6000, 0x6100, 0x6200, 0x6355, 0xF265,
    ]);
    run(&mut cpu, 11);
    assert_eq!((reg(&cpu, 0), reg(&cpu, 1), reg(&cpu, 2), reg(&cpu, 3)), (0x11, 0x22, 0x33, 0x55));
    // Memory at I + 3 was not written: it still holds zero.
    let mut cpu = machine(&[0x6344, 0xA300, 0xF255, 0xF365]);
    run(&mut cpu, 4);
    assert_eq!(reg(&cpu, 3), 0);
    // F055 / F065 move V0 alone.
    let mut cpu = machine(&[0x6042, 0xA300, 0xF055, 0x6000, 0xF065]);
    run(&mut cpu, 5);
    assert_eq!(reg(&cpu, 0), 0x42);
}

#[test]
fn store_registers_at_the_end_of_memory() {
    // I + x must stay inside memory.
    let mut cpu = machine(&[0xAFFE, 0xF155]);
    run(&mut cpu, 2);
    let mut cpu = machine(&[0xAFFE, 0xF255]);
    run(&mut cpu, 1);
    assert!(!cpu.can_step());
    let mut cpu = machine(&[0xAFFF, 0xF065]);
    run(&mut cpu, 2);
}

#[test]
fn store_then_load_reads_back() {
    let mut cpu = machine(&[0x6011, 0x6122, 0xA400, 0xF255, 0xF265]);
    run(&mut cpu, 5);
    assert_eq!((reg(&cpu, 0), reg(&cpu, 1)), (0x11, 0x22));
}

#[test]
fn screen_stays_binary() {
    let mut cpu = machine(&[0xA000, 0xD01F, 0x7001, 0xD01F, 0x7103, 0xD01F, 0x1200]);
    for _ in 0..60 {
        assert!(cpu.can_step());
        assert_eq!(cpu.step(), Ok(()));
        assert!(cpu.graphics().iter().all(|&p| p <= 1));
    }
}

#[test]
fn keys_are_left_alone() {
    let mut cpu = machine(&[0x6003, 0xF00A, 0xE09E, 0x00E0]);
    cpu.set_key(3, true);
    cpu.set_key(15, true);
    run(&mut cpu, 3);
    let pressed: Vec<usize> = (0..16).filter(|&k| cpu.key_down(k)).collect();
    assert_eq!(pressed, vec![3, 15]);
}

#[test]
fn keypad_layout() {
    let layout = [
        ('1', 0x1),
        ('2', 0x2),
        ('3', 0x3),
        ('4', 0xC),
        ('q', 0x4),
        ('w', 0x5),
        ('e', 0x6),
        ('r', 0xD),
        ('a', 0x7),
        ('s', 0x8),
        ('d', 0x9),
        ('f', 0xE),
        ('z', 0xA),
        ('c', 0x0),
        ('v', 0xF),
    ];
    for (c, k) in layout {
        assert_eq!(keypad_key(c), Some(k));
    }
    assert_eq!(keypad_key('x'), None);
    assert_eq!(keypad_key('Q'), None);
    assert_eq!(keypad_key(' '), None);
}

#[test]
fn pixel_colours() {
    assert_eq!(pixel_rgb(0), (0, 0, 0));
    assert_eq!(pixel_rgb(1), (255, 255, 255));
    assert_eq!(pixel_rgb(7), (255, 255, 255));
}

#[test]
fn set_key_presses_and_releases() {
    let mut cpu = machine(&[0x6004, 0xE09E, 0x0000, 0xE0A1]);
    cpu.set_key(4, true);
    assert!(cpu.key_down(4));
    run(&mut cpu, 2);
    assert_eq!(field(&cpu, "PC"), 0x206);
    cpu.set_key(4, false);
    assert!(!cpu.key_down(4));
    run(&mut cpu, 1);
    assert_eq!(field(&cpu, "PC"), 0x20A);
}

#[test]
fn pixel_and_key_getters() {
    let mut cpu = machine(&[0x6001, 0x6102, 0xA000, 0xD015]);
    run(&mut cpu, 4);
    // Glyph 0 at (1, 2): its first row lights x = 1..5 on line 2.
    assert_eq!(cpu.pixel(2 * 64 + 1), 1);
    assert_eq!(cpu.pixel(2 * 64 + 4), 1);
    assert_eq!(cpu.pixel(2 * 64 + 5), 0);
    assert_eq!(cpu.pixel(0), 0);
    cpu.set_key(9, true);
    assert!(cpu.key_down(9));
    assert!(!cpu.key_down(8));
}

#[test]
fn ordinary_instructions_move_to_the_next_one() {
    let program = [0x6012, 0x7003, 0x8014, 0xA234, 0xF015, 0x00E0, 0xC1FF, 0xD000];
    let mut cpu = machine(&program);
    for k in 0..program.len() {
        assert_eq!(field(&cpu, "PC"), 0x200 + 2 * k as u32);
        run(&mut cpu, 1);
    }
    assert_eq!(field(&cpu, "PC"), 0x200 + 2 * program.len() as u32);
}

#[test]
fn only_bcd_and_store_write_memory() {
    // Load the first eight program bytes into V0 through V7 after running
    // instructions that do not write memory; they come back unchanged.
    let program = [0x6012, 0x8014, 0xA000, 0xD015, 0x00E0, 0xA200, 0xF765];
    let mut cpu = machine(&program);
    run(&mut cpu, program.len());
    let expected = [0x60, 0x12, 0x80, 0x14, 0xA0, 0x00, 0xD0, 0x15];
    for (r, &b) in expected.iter().enumerate() {
        assert_eq!(reg(&cpu, r), b);
    }
}

#[test]
fn many_ticks_bring_both_timers_to_zero_and_keep_them_there() {
    let mut cpu = machine(&[0x60FF, 0xF015, 0x6164, 0xF118]);
    run(&mut cpu, 4);
    for _ in 0..100 {
        cpu.timers();
    }
    assert_eq!(field(&cpu, "SOUND"), 0xFF - 100); // the delay timer
    assert_eq!(field(&cpu, "DELAY"), 0); // the sound timer
    for _ in 0..155 {
        cpu.timers();
    }
    let before = cpu.to_string();
    assert_eq!(field(&cpu, "SOUND"), 0);
    cpu.timers();
    assert_eq!(cpu.to_string(), before);
}
