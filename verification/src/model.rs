//! The mathematical model of the machine: its state as plain sequences and
//! integers, and the meaning of every instruction as a function on that state.

use vstd::prelude::*;
use crate::font::{FONT, FONT_START, GLYPH_SIZE};
use crate::chip8::{MEMORY_SIZE, PIXELS, PROGRAM_START, SCREEN_HEIGHT, SCREEN_WIDTH};

verus! {

/// What a single step of the machine did.
#[derive(Clone, Copy, Debug, PartialEq, Eq, Structural)]
pub enum StepOutcome {
    /// The machine waits for a key press and did nothing.
    Waiting,
    /// An instruction was fetched and carried out.
    Executed,
    /// The fetched opcode means nothing; only the program counter moved on.
    UnknownOpcode(u16),
}

/// The abstract state of a machine.
#[verifier::ext_equal]
pub struct Chip8View {
    pub registers: Seq<u8>,
    pub memory: Seq<u8>,
    pub index_register: u16,
    pub pc: u16,
    pub stack: Seq<u16>,
    pub sp: usize,
    pub delay_timer: u8,
    pub sound_timer: u8,
    pub screen: Seq<u8>,
    pub keys: Seq<bool>,
    pub waiting_on_key: bool,
    pub key_register: usize,
}

impl Chip8View {
    /// The shape every machine state has; stack slots above the top are empty.
    pub open spec fn wf(self) -> bool {
        &&& self.registers.len() == 16
        &&& self.memory.len() == MEMORY_SIZE
        &&& self.stack.len() == 16
        &&& self.screen.len() == PIXELS
        &&& self.keys.len() == 16
        &&& self.sp <= 16
        &&& self.key_register < 16
        &&& forall|i: int| self.sp <= i < 16 ==> #[trigger] self.stack[i] == 0
    }

    /// Register `i` set to `v`.
    pub open spec fn set_reg(self, i: int, v: u8) -> Chip8View {
        Chip8View { registers: self.registers.update(i, v), ..self }
    }

    /// The next instruction skipped when `cond` holds.
    pub open spec fn skip_if(self, cond: bool) -> Chip8View {
        if cond {
            Chip8View { pc: (self.pc + 2) as u16, ..self }
        } else {
            self
        }
    }
}

/// Index of the pixel at column `x` and row `y`.
pub open spec fn pixel_index(x: int, y: int) -> int {
    y * SCREEN_WIDTH + x
}

/// The memory of a freshly made machine: the font at `FONT_START`, zero elsewhere.
pub open spec fn initial_memory() -> Seq<u8> {
    Seq::new(
        MEMORY_SIZE as nat,
        |i: int|
            if FONT_START <= i < FONT_START + 80 {
                FONT@[i - FONT_START]
            } else {
                0u8
            },
    )
}

/// The state of a freshly made machine.
pub open spec fn initial_state() -> Chip8View {
    Chip8View {
        registers: Seq::new(16, |i: int| 0u8),
        memory: initial_memory(),
        index_register: 0,
        pc: PROGRAM_START as u16,
        stack: Seq::new(16, |i: int| 0u16),
        sp: 0,
        delay_timer: 0,
        sound_timer: 0,
        screen: Seq::new(PIXELS as nat, |i: int| 0u8),
        keys: Seq::new(16, |i: int| false),
        waiting_on_key: false,
        key_register: 0,
    }
}

/// The opcode stored big-endian at `addr` and `addr + 1`.
pub open spec fn opcode_at(mem: Seq<u8>, addr: int) -> u16 {
    (mem[addr] as int * 256 + mem[addr + 1] as int) as u16
}

/// The high nibble of an opcode, which selects its instruction group.
pub open spec fn op_group(op: u16) -> u16 {
    op / 4096
}

/// The `X` field of an opcode (bits 8 to 11).
pub open spec fn op_x(op: u16) -> int {
    ((op / 256) % 16) as int
}

/// The `Y` field of an opcode (bits 4 to 7).
pub open spec fn op_y(op: u16) -> int {
    ((op / 16) % 16) as int
}

/// The `N` field of an opcode (bits 0 to 3).
pub open spec fn op_n(op: u16) -> u16 {
    op % 16
}

/// The `NN` field of an opcode (bits 0 to 7).
pub open spec fn op_nn(op: u16) -> u8 {
    (op % 256) as u8
}

/// The `NNN` field of an opcode (bits 0 to 11).
pub open spec fn op_nnn(op: u16) -> u16 {
    op % 4096
}

/// Row of a sprite that pixel `p` falls in, for a sprite placed at `(vx, vy)`.
pub open spec fn sprite_row(p: int, vy: u8) -> int {
    p / (SCREEN_WIDTH as int) - (vy % 32) as int
}

/// Column of a sprite that pixel `p` falls in, for a sprite placed at `(vx, vy)`.
pub open spec fn sprite_col(p: int, vx: u8) -> int {
    p % (SCREEN_WIDTH as int) - (vx % 64) as int
}

/// Whether pixel `p` is one of the first `limit` sprite cells, counted row by
/// row, of an 8-wide, `n`-high sprite at `(vx, vy)`. The sprite is clipped at
/// the right and bottom edges of the screen.
pub open spec fn in_sprite(p: int, vx: u8, vy: u8, n: int, limit: int) -> bool {
    let r = sprite_row(p, vy);
    let c = sprite_col(p, vx);
    &&& 0 <= c < 8
    &&& 0 <= r < n
    &&& r * 8 + c < limit
}

/// The sprite bit that lands on pixel `p`: bit `7 - c` of sprite byte `r`,
/// the sprite bytes starting at `start` in memory.
pub open spec fn sprite_bit(mem: Seq<u8>, start: int, p: int, vx: u8, vy: u8) -> u8 {
    let r = sprite_row(p, vy);
    let c = sprite_col(p, vx);
    (mem[start + r] >> ((7 - c) as u8)) & 1u8
}

/// The screen after the first `limit` sprite cells were XOR-ed onto it.
pub open spec fn draw_screen(
    screen: Seq<u8>,
    mem: Seq<u8>,
    start: int,
    vx: u8,
    vy: u8,
    n: int,
    limit: int,
) -> Seq<u8> {
    Seq::new(
        screen.len(),
        |p: int|
            if in_sprite(p, vx, vy, n, limit) {
                screen[p] ^ sprite_bit(mem, start, p, vx, vy)
            } else {
                screen[p]
            },
    )
}

/// Whether one of the first `limit` sprite cells turns off a lit pixel.
pub open spec fn collides(
    screen: Seq<u8>,
    mem: Seq<u8>,
    start: int,
    vx: u8,
    vy: u8,
    n: int,
    limit: int,
) -> bool {
    exists|p: int|
        0 <= p < screen.len() && #[trigger] in_sprite(p, vx, vy, n, limit) && screen[p] == 1
            && sprite_bit(mem, start, p, vx, vy) == 1
}

/// `DXYN`: draws the `n`-byte sprite at `I` at `(vx, vy)`; `VF` tells whether
/// a lit pixel was turned off.
pub open spec fn draw(s: Chip8View, vx: u8, vy: u8, n: int) -> Chip8View {
    let start = s.index_register as int;
    Chip8View {
        screen: draw_screen(s.screen, s.memory, start, vx, vy, n, 8 * n),
        registers: s.registers.update(
            15,
            if collides(s.screen, s.memory, start, vx, vy, n, 8 * n) {
                1u8
            } else {
                0u8
            },
        ),
        ..s
    }
}

/// Result and flag of `8XY4`: the sum modulo 256 and the carry.
pub open spec fn add_with_carry(a: u8, b: u8) -> (u8, u8) {
    if a as int + b as int > 255 {
        ((a as int + b as int - 256) as u8, 1u8)
    } else {
        ((a as int + b as int) as u8, 0u8)
    }
}

/// Result and flag of `8XY5` and `8XY7`: the difference modulo 256 and
/// 1 when no borrow was needed.
pub open spec fn sub_with_flag(a: u8, b: u8) -> (u8, u8) {
    if a >= b {
        ((a - b) as u8, 1u8)
    } else {
        ((a as int + 256 - b as int) as u8, 0u8)
    }
}

/// The machine after `op` was carried out, its program counter already past
/// the opcode; `random_byte` is the byte that `CXNN` masks.
pub open spec fn execute(s: Chip8View, op: u16, random_byte: u8) -> (Chip8View, StepOutcome) {
    let group = op_group(op);
    let x = op_x(op);
    let y = op_y(op);
    let n = op_n(op);
    let nn = op_nn(op);
    let nnn = op_nnn(op);
    let vx = s.registers[x];
    let vy = s.registers[y];
    let unknown = (s, StepOutcome::UnknownOpcode(op));
    if group == 0x0 {
        if nn == 0xE0 {
            (Chip8View { screen: Seq::new(PIXELS as nat, |i: int| 0u8), ..s }, StepOutcome::Executed)
        } else if nn == 0xEE {
            if s.sp > 0 {
                let top = s.sp - 1;
                (
                    Chip8View {
                        sp: top as usize,
                        pc: s.stack[top],
                        stack: s.stack.update(top, 0u16),
                        ..s
                    },
                    StepOutcome::Executed,
                )
            } else {
                (s, StepOutcome::Executed)
            }
        } else {
            unknown
        }
    } else if group == 0x1 {
        (Chip8View { pc: nnn, ..s }, StepOutcome::Executed)
    } else if group == 0x2 {
        (
            Chip8View {
                stack: s.stack.update(s.sp as int, s.pc),
                sp: (s.sp + 1) as usize,
                pc: nnn,
                ..s
            },
            StepOutcome::Executed,
        )
    } else if group == 0x3 {
        (s.skip_if(vx == nn), StepOutcome::Executed)
    } else if group == 0x4 {
        (s.skip_if(vx != nn), StepOutcome::Executed)
    } else if group == 0x5 {
        (s.skip_if(vx == vy), StepOutcome::Executed)
    } else if group == 0x6 {
        (s.set_reg(x, nn), StepOutcome::Executed)
    } else if group == 0x7 {
        (s.set_reg(x, ((vx as int + nn as int) % 256) as u8), StepOutcome::Executed)
    } else if group == 0x8 {
        if n == 0x0 {
            (s.set_reg(x, vy), StepOutcome::Executed)
        } else if n == 0x1 {
            (s.set_reg(x, vx | vy), StepOutcome::Executed)
        } else if n == 0x2 {
            (s.set_reg(x, vx & vy), StepOutcome::Executed)
        } else if n == 0x3 {
            (s.set_reg(x, vx ^ vy), StepOutcome::Executed)
        } else if n == 0x4 {
            let (r, f) = add_with_carry(vx, vy);
            (s.set_reg(x, r).set_reg(15, f), StepOutcome::Executed)
        } else if n == 0x5 {
            let (r, f) = sub_with_flag(vx, vy);
            (s.set_reg(x, r).set_reg(15, f), StepOutcome::Executed)
        } else if n == 0x6 {
            (s.set_reg(x, vx / 2).set_reg(15, vx % 2), StepOutcome::Executed)
        } else if n == 0x7 {
            let (r, f) = sub_with_flag(vy, vx);
            (s.set_reg(x, r).set_reg(15, f), StepOutcome::Executed)
        } else if n == 0xE {
            (
                s.set_reg(x, ((vx as int * 2) % 256) as u8).set_reg(15, vx / 128),
                StepOutcome::Executed,
            )
        } else {
            unknown
        }
    } else if group == 0x9 {
        (s.skip_if(vx != vy), StepOutcome::Executed)
    } else if group == 0xA {
        (Chip8View { index_register: nnn, ..s }, StepOutcome::Executed)
    } else if group == 0xB {
        (Chip8View { pc: (nnn + s.registers[0]) as u16, ..s }, StepOutcome::Executed)
    } else if group == 0xC {
        (s.set_reg(x, random_byte & nn), StepOutcome::Executed)
    } else if group == 0xD {
        (draw(s, vx, vy, n as int), StepOutcome::Executed)
    } else if group == 0xE {
        let key = (vx % 16) as int;
        if nn == 0x9E {
            (s.skip_if(s.keys[key]), StepOutcome::Executed)
        } else if nn == 0xA1 {
            (s.skip_if(!s.keys[key]), StepOutcome::Executed)
        } else {
            unknown
        }
    } else {
        let i = s.index_register as int;
        if nn == 0x07 {
            (s.set_reg(x, s.delay_timer), StepOutcome::Executed)
        } else if nn == 0x0A {
            (
                Chip8View { waiting_on_key: true, key_register: x as usize, ..s },
                StepOutcome::Executed,
            )
        } else if nn == 0x15 {
            (Chip8View { delay_timer: vx, ..s }, StepOutcome::Executed)
        } else if nn == 0x18 {
            (Chip8View { sound_timer: vx, ..s }, StepOutcome::Executed)
        } else if nn == 0x1E {
            (Chip8View { index_register: (i + vx) as u16, ..s }, StepOutcome::Executed)
        } else if nn == 0x29 {
            (
                Chip8View { index_register: (FONT_START + vx * GLYPH_SIZE) as u16, ..s },
                StepOutcome::Executed,
            )
        } else if nn == 0x33 {
            (
                Chip8View {
                    memory: s.memory.update(i, vx / 100).update(i + 1, (vx / 10) % 10).update(
                        i + 2,
                        vx % 10,
                    ),
                    ..s
                },
                StepOutcome::Executed,
            )
        } else if nn == 0x55 {
            (
                Chip8View {
                    memory: Seq::new(
                        s.memory.len(),
                        |j: int|
                            if i <= j <= i + x {
                                s.registers[j - i]
                            } else {
                                s.memory[j]
                            },
                    ),
                    ..s
                },
                StepOutcome::Executed,
            )
        } else if nn == 0x65 {
            (
                Chip8View {
                    registers: Seq::new(
                        s.registers.len(),
                        |j: int|
                            if j <= x {
                                s.memory[i + j]
                            } else {
                                s.registers[j]
                            },
                    ),
                    ..s
                },
                StepOutcome::Executed,
            )
        } else {
            unknown
        }
    }
}

/// One step of the machine: nothing while it waits for a key, else the
/// opcode at `pc` is fetched, `pc` moves past it, and the opcode is carried out.
pub open spec fn step(s: Chip8View, random_byte: u8) -> (Chip8View, StepOutcome) {
    if s.waiting_on_key {
        (s, StepOutcome::Waiting)
    } else {
        execute(
            Chip8View { pc: (s.pc + 2) as u16, ..s },
            opcode_at(s.memory, s.pc as int),
            random_byte,
        )
    }
}

/// Whether carrying out `op` on `s` stays within the machine's bounds: the
/// stack has room for a call, sprite, BCD and register-dump addresses lie
/// inside memory, `I` does not overflow, and a font glyph address fits a byte
/// product.
pub open spec fn op_in_bounds(s: Chip8View, op: u16) -> bool {
    let group = op_group(op);
    let x = op_x(op);
    let vx = s.registers[x];
    let nn = op_nn(op);
    let i = s.index_register as int;
    &&& group == 0x2 ==> s.sp < 16
    &&& group == 0xD ==> (op_n(op) == 0 || i + op_n(op) <= MEMORY_SIZE)
    &&& (group == 0xF && nn == 0x1E) ==> i + vx <= u16::MAX
    &&& (group == 0xF && nn == 0x29) ==> vx * GLYPH_SIZE <= u8::MAX
    &&& (group == 0xF && nn == 0x33) ==> i + 2 < MEMORY_SIZE
    &&& (group == 0xF && (nn == 0x55 || nn == 0x65)) ==> i + x + 1 <= MEMORY_SIZE
}

/// Whether the next step stays within the machine's bounds: the machine
/// waits, or the opcode lies inside memory and its instruction stays in bounds.
pub open spec fn step_in_bounds(s: Chip8View) -> bool {
    s.waiting_on_key || (s.pc + 1 < MEMORY_SIZE && op_in_bounds(
        Chip8View { pc: (s.pc + 2) as u16, ..s },
        opcode_at(s.memory, s.pc as int),
    ))
}

/// `set_pixel(x, y, value)`: XORs `value` onto the pixel at `(x, y)` when it
/// lies on the screen, and sets `VF` to 1 when that turns a lit pixel off.
pub open spec fn set_pixel_state(s: Chip8View, x: int, y: int, value: u8) -> Chip8View {
    if x >= SCREEN_WIDTH || y >= SCREEN_HEIGHT {
        s
    } else {
        let i = pixel_index(x, y);
        Chip8View {
            screen: s.screen.update(i, s.screen[i] ^ value),
            registers: if s.screen[i] == 1 && value == 1 {
                s.registers.update(15, 1u8)
            } else {
                s.registers
            },
            ..s
        }
    }
}

/// `set_key(key, pressed)`: records the key's state; a fresh press while the
/// machine waits for a key stores the key in the waiting register and ends the wait.
pub open spec fn set_key_state(s: Chip8View, key: int, pressed: bool) -> Chip8View {
    let newly_pressed = pressed && !s.keys[key];
    let t = Chip8View { keys: s.keys.update(key, pressed), ..s };
    if s.waiting_on_key && newly_pressed {
        Chip8View {
            waiting_on_key: false,
            registers: t.registers.update(s.key_register as int, key as u8),
            ..t
        }
    } else {
        t
    }
}

/// A timer one tick later: one less, but never below zero.
pub open spec fn tick(t: u8) -> u8 {
    if t > 0 {
        (t - 1) as u8
    } else {
        0
    }
}

/// `tick_timers()`: both timers one tick later.
pub open spec fn tick_state(s: Chip8View) -> Chip8View {
    Chip8View { delay_timer: tick(s.delay_timer), sound_timer: tick(s.sound_timer), ..s }
}

/// Largest program that fits in memory after `PROGRAM_START`.
pub open spec fn max_rom_size() -> int {
    MEMORY_SIZE - PROGRAM_START
}

/// Memory with `rom` copied to `PROGRAM_START` onwards.
pub open spec fn loaded_memory(mem: Seq<u8>, rom: Seq<u8>) -> Seq<u8> {
    Seq::new(
        mem.len(),
        |i: int|
            if PROGRAM_START <= i < PROGRAM_START + rom.len() {
                rom[i - PROGRAM_START]
            } else {
                mem[i]
            },
    )
}

/// Pixel `x + 64 * y` has column `x` and row `y`; every pixel index splits so.
pub proof fn lemma_pixel_coords(x: int, y: int)
    requires
        0 <= x < 64,
    ensures
        pixel_index(x, y) / 64 == y,
        pixel_index(x, y) % 64 == x,
{
    vstd::arithmetic::div_mod::lemma_fundamental_div_mod_converse(pixel_index(x, y), 64, y, x);
}

/// Drawing one more sprite cell, number `8 * r + k`, changes at most the one
/// pixel it lands on.
pub proof fn lemma_draw_cell(
    screen: Seq<u8>,
    mem: Seq<u8>,
    start: int,
    vx: u8,
    vy: u8,
    n: int,
    r: int,
    k: int,
)
    requires
        screen.len() == PIXELS,
        0 <= r < n,
        0 <= k < 8,
    ensures
        ({
            let limit = r * 8 + k;
            let px = (vx % 64) + k;
            let py = (vy % 32) + r;
            let bit = (mem[start + r] >> ((7 - k) as u8)) & 1u8;
            let before = draw_screen(screen, mem, start, vx, vy, n, limit);
            let after = draw_screen(screen, mem, start, vx, vy, n, limit + 1);
            if px < 64 && py < 32 {
                let p = pixel_index(px, py);
                &&& before[p] == screen[p]
                &&& after == before.update(p, before[p] ^ bit)
                &&& collides(screen, mem, start, vx, vy, n, limit + 1) == (collides(
                    screen,
                    mem,
                    start,
                    vx,
                    vy,
                    n,
                    limit,
                ) || (screen[p] == 1 && bit == 1))
            } else {
                &&& after == before
                &&& collides(screen, mem, start, vx, vy, n, limit + 1) == collides(
                    screen,
                    mem,
                    start,
                    vx,
                    vy,
                    n,
                    limit,
                )
            }
        }),
{
    let limit = r * 8 + k;
    let px = (vx % 64) + k;
    let py = (vy % 32) + r;
    let bit = (mem[start + r] >> ((7 - k) as u8)) & 1u8;
    let before = draw_screen(screen, mem, start, vx, vy, n, limit);
    let after = draw_screen(screen, mem, start, vx, vy, n, limit + 1);
    // a pixel newly covered is the cell (r, k) itself
    assert forall|p: int|
        0 <= p < PIXELS && #[trigger] in_sprite(p, vx, vy, n, limit + 1) && !in_sprite(
            p,
            vx,
            vy,
            n,
            limit,
        ) implies p / 64 == py && p % 64 == px by {
        assert(sprite_row(p, vy) == r);
        assert(sprite_col(p, vx) == k);
    }
    if px < 64 && py < 32 {
        let p0 = pixel_index(px, py);
        lemma_pixel_coords(px, py);
        assert(in_sprite(p0, vx, vy, n, limit + 1));
        assert(!in_sprite(p0, vx, vy, n, limit));
        assert(sprite_bit(mem, start, p0, vx, vy) == bit);
        assert forall|p: int|
            0 <= p < PIXELS && #[trigger] in_sprite(p, vx, vy, n, limit + 1) && !in_sprite(
                p,
                vx,
                vy,
                n,
                limit,
            ) implies p == p0 by {
            vstd::arithmetic::div_mod::lemma_fundamental_div_mod(p, 64);
        }
        assert(after =~= before.update(p0, before[p0] ^ bit));
        if collides(screen, mem, start, vx, vy, n, limit + 1) {
            let p = choose|p: int|
                0 <= p < screen.len() && #[trigger] in_sprite(p, vx, vy, n, limit + 1)
                    && screen[p] == 1 && sprite_bit(mem, start, p, vx, vy) == 1;
            if !in_sprite(p, vx, vy, n, limit) {
                assert(p == p0);
            }
        }
        if collides(screen, mem, start, vx, vy, n, limit) {
            let p = choose|p: int|
                0 <= p < screen.len() && #[trigger] in_sprite(p, vx, vy, n, limit) && screen[p]
                    == 1 && sprite_bit(mem, start, p, vx, vy) == 1;
            assert(in_sprite(p, vx, vy, n, limit + 1));
        }
    } else {
        assert forall|p: int|
            0 <= p < PIXELS && #[trigger] in_sprite(p, vx, vy, n, limit + 1) implies in_sprite(
            p,
            vx,
            vy,
            n,
            limit,
        ) by {
            if !in_sprite(p, vx, vy, n, limit) {
                vstd::arithmetic::div_mod::lemma_fundamental_div_mod(p, 64);
                assert(p / 64 < 32);
            }
        }
        assert(after =~= before);
        if collides(screen, mem, start, vx, vy, n, limit + 1) {
            let p = choose|p: int|
                0 <= p < screen.len() && #[trigger] in_sprite(p, vx, vy, n, limit + 1)
                    && screen[p] == 1 && sprite_bit(mem, start, p, vx, vy) == 1;
            assert(in_sprite(p, vx, vy, n, limit));
        }
        if collides(screen, mem, start, vx, vy, n, limit) {
            let p = choose|p: int|
                0 <= p < screen.len() && #[trigger] in_sprite(p, vx, vy, n, limit) && screen[p]
                    == 1 && sprite_bit(mem, start, p, vx, vy) == 1;
            assert(in_sprite(p, vx, vy, n, limit + 1));
        }
    }
}

} // verus!
