# chip8

A CHIP-8 emulator whose machine is a verified Verus library.

- `src/model.rs` — the machine state as sequences and integers (`Chip8View`)
  and the meaning of every instruction (`step`, `execute`), with
  `step_in_bounds` telling which steps stay inside the machine.
- `src/chip8.rs` — the executable machine; each operation is proved to act as
  the model says.
- `src/laws.rs` — properties across instructions: call/return, redrawing a
  sprite erases it, key waits, BCD digits, carries and borrows, what the
  random byte can affect, and that the screen stays black and white.
- `src/schedule.rs` — when steps, timer ticks and frames fall due.
- `src/keypad.rs`, `src/display.rs` — keyboard layout and RGBA output.
- `app/` — the window, file reading and event loop (`winit`, `pixels`).
