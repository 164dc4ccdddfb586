# chip8

A CHIP-8 interpreter whose core is verified with Verus.

- `src/state.rs` — `CpuState`, the mathematical picture of a machine, and
  the instruction-word fields.
- `src/semantics.rs` — what each instruction does to a `CpuState`
  (`CpuState::execute`, `CpuState::step`), and when a cycle can run at all
  (`CpuState::can_step`).
- `src/cpu.rs` — `Cpu`, the executable machine; every operation is proved to
  follow the semantics above.
- `src/laws.rs` — properties of the instruction set proved over the
  semantics: calls and returns pair up, stored registers read back, sprites
  are XORed onto the screen and drawing twice erases them, `VF` reports
  collisions, `Fx0A` waits until a key is held, timers count down to zero,
  the screen stays black and white, and more.
- `src/display.rs` — the one-glance text report of a machine.
- `src/bytes.rs`, `src/font.rs`, `src/host.rs`, `src/random.rs` — big-endian
  words, the built-in font, keyboard and colour mapping for a front end, and
  the random source used by `Cxkk`.
- `app/main.rs` — the SDL front end: reads the ROM file, draws the screen,
  feeds key presses, runs one cycle and one timer tick per frame.
