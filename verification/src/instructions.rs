//! What each instruction does, stated directly over the two opcode bytes at
//! `pc` and the machine before and after the step.

use vstd::prelude::*;
use crate::chip8::MEMORY_SIZE;
use crate::display::rgba_channel;
use crate::model::{
    Chip8View, StepOutcome, collides, execute, in_sprite, initial_state, loaded_memory, op_group,
    op_n, op_nn, op_nnn, op_x, op_y, opcode_at, set_key_state, set_pixel_state, sprite_bit, step,
    step_in_bounds,
};

verus! {

/// The first opcode byte at `pc`.
pub open spec fn hi(s: Chip8View) -> u8 {
    s.memory[s.pc as int]
}

/// The second opcode byte at `pc`.
pub open spec fn lo(s: Chip8View) -> u8 {
    s.memory[s.pc + 1]
}

/// `X`: the low nibble of the first opcode byte.
pub open spec fn x_of(s: Chip8View) -> int {
    (hi(s) % 16) as int
}

/// `Y`: the high nibble of the second opcode byte.
pub open spec fn y_of(s: Chip8View) -> int {
    (lo(s) / 16) as int
}

/// Register `VX`.
pub open spec fn vx(s: Chip8View) -> u8 {
    s.registers[x_of(s)]
}

/// Register `VY`.
pub open spec fn vy(s: Chip8View) -> u8 {
    s.registers[y_of(s)]
}

/// A machine about to fetch an instruction that lies inside memory.
pub open spec fn fetching(s: Chip8View) -> bool {
    &&& s.wf()
    &&& !s.waiting_on_key
    &&& s.pc + 1 < MEMORY_SIZE
}

/// The opcode fields, read from its two bytes.
proof fn lemma_decode(s: Chip8View)
    requires
        fetching(s),
    ensures
        ({
            let op = opcode_at(s.memory, s.pc as int);
            &&& op_group(op) == hi(s) / 16
            &&& op_x(op) == hi(s) % 16
            &&& op_y(op) == lo(s) / 16
            &&& op_n(op) == lo(s) % 16
            &&& op_nn(op) == lo(s)
            &&& op_nnn(op) == (hi(s) % 16) * 256 + lo(s)
        }),
{
    let h = hi(s) as int;
    let l = lo(s) as int;
    let op = opcode_at(s.memory, s.pc as int);
    assert(op as int == h * 256 + l);
    assert(op / 4096 == h / 16) by (nonlinear_arith)
        requires
            op as int == h * 256 + l,
            0 <= h < 256,
            0 <= l < 256,
    ;
    assert((op / 256) % 16 == h % 16) by (nonlinear_arith)
        requires
            op as int == h * 256 + l,
            0 <= h < 256,
            0 <= l < 256,
    ;
    assert((op / 16) % 16 == l / 16) by (nonlinear_arith)
        requires
            op as int == h * 256 + l,
            0 <= h < 256,
            0 <= l < 256,
    ;
    assert(op % 16 == l % 16) by (nonlinear_arith)
        requires
            op as int == h * 256 + l,
            0 <= h < 256,
            0 <= l < 256,
    ;
    assert(op % 256 == l) by (nonlinear_arith)
        requires
            op as int == h * 256 + l,
            0 <= h < 256,
            0 <= l < 256,
    ;
    assert(op % 4096 == (h % 16) * 256 + l) by (nonlinear_arith)
        requires
            op as int == h * 256 + l,
            0 <= h < 256,
            0 <= l < 256,
    ;
}

/// The step carries out the opcode at `pc` with `pc` already past it.
proof fn lemma_unfold_step(s: Chip8View, b: u8)
    requires
        fetching(s),
    ensures
        step(s, b) == execute(
            Chip8View { pc: (s.pc + 2) as u16, ..s },
            opcode_at(s.memory, s.pc as int),
            b,
        ),
{
}

/// `8XY6` shifts `VX` right by one: `VF` is the bit shifted out, so
/// `2 * VX' + VF` is the old `VX`; nothing but `VX`, `VF` and `pc` changes.
pub proof fn lemma_shift_right(s: Chip8View, b: u8)
    requires
        fetching(s),
        hi(s) / 16 == 0x8,
        lo(s) % 16 == 0x6,
    ensures
        ({
            let t = step(s, b).0;
            let x = x_of(s);
            &&& step(s, b).1 == StepOutcome::Executed
            &&& t.registers[15] <= 1
            &&& t.registers[15] == vx(s) % 2
            &&& x != 15 ==> 2 * t.registers[x] + t.registers[15] == vx(s)
            &&& forall|i: int| 0 <= i < 15 && i != x ==> t.registers[i] == s.registers[i]
            &&& t == (Chip8View { registers: t.registers, pc: (s.pc + 2) as u16, ..s })
        }),
{
    lemma_decode(s);
    lemma_unfold_step(s, b);
}

/// `00E0` turns every pixel off; nothing else but `pc` changes.
pub proof fn lemma_clear_screen(s: Chip8View, b: u8)
    requires
        fetching(s),
        hi(s) / 16 == 0x0,
        lo(s) == 0xE0,
    ensures
        ({
            let t = step(s, b).0;
            &&& step(s, b).1 == StepOutcome::Executed
            &&& t.screen.len() == s.screen.len()
            &&& forall|p: int| 0 <= p < t.screen.len() ==> t.screen[p] == 0
            &&& t == (Chip8View { screen: t.screen, pc: (s.pc + 2) as u16, ..s })
        }),
{
    lemma_decode(s);
    lemma_unfold_step(s, b);
}

/// `00EE` returns to the address on top of the stack and pops it; with an
/// empty stack it only moves on.
pub proof fn lemma_return(s: Chip8View, b: u8)
    requires
        fetching(s),
        hi(s) / 16 == 0x0,
        lo(s) == 0xEE,
    ensures
        ({
            let t = step(s, b).0;
            &&& step(s, b).1 == StepOutcome::Executed
            &&& s.sp > 0 ==> {
                &&& t.pc == s.stack[s.sp - 1]
                &&& t.sp == s.sp - 1
                &&& t.stack[s.sp - 1] == 0
                &&& forall|i: int| 0 <= i < 16 && i != s.sp - 1 ==> t.stack[i] == s.stack[i]
                &&& t == (Chip8View { pc: t.pc, sp: t.sp, stack: t.stack, ..s })
            }
            &&& s.sp == 0 ==> t == (Chip8View { pc: (s.pc + 2) as u16, ..s })
        }),
{
    lemma_decode(s);
    lemma_unfold_step(s, b);
}

/// `1NNN` jumps to `NNN`; nothing else changes.
pub proof fn lemma_jump(s: Chip8View, b: u8)
    requires
        fetching(s),
        hi(s) / 16 == 0x1,
    ensures
        step(s, b).1 == StepOutcome::Executed,
        step(s, b).0 == (Chip8View { pc: ((hi(s) % 16) * 256 + lo(s)) as u16, ..s }),
{
    lemma_decode(s);
    lemma_unfold_step(s, b);
}

/// `BNNN` jumps to `NNN + V0`; nothing else changes.
pub proof fn lemma_jump_offset(s: Chip8View, b: u8)
    requires
        fetching(s),
        hi(s) / 16 == 0xB,
    ensures
        step(s, b).1 == StepOutcome::Executed,
        step(s, b).0 == (Chip8View {
            pc: ((hi(s) % 16) * 256 + lo(s) + s.registers[0]) as u16,
            ..s
        }),
        step(s, b).0.pc == (hi(s) % 16) * 256 + lo(s) + s.registers[0],
{
    lemma_decode(s);
    lemma_unfold_step(s, b);
}

/// `2NNN` pushes the address after it and jumps to `NNN`.
pub proof fn lemma_call(s: Chip8View, b: u8)
    requires
        fetching(s),
        hi(s) / 16 == 0x2,
        s.sp < 16,
    ensures
        ({
            let t = step(s, b).0;
            &&& step(s, b).1 == StepOutcome::Executed
            &&& t.pc == (hi(s) % 16) * 256 + lo(s)
            &&& t.sp == s.sp + 1
            &&& t.stack[s.sp as int] == s.pc + 2
            &&& forall|i: int| 0 <= i < 16 && i != s.sp ==> t.stack[i] == s.stack[i]
            &&& t == (Chip8View { pc: t.pc, sp: t.sp, stack: t.stack, ..s })
        }),
{
    lemma_decode(s);
    lemma_unfold_step(s, b);
}

/// `3XNN`, `4XNN`, `5XY0` and `9XY0` move `pc` on by 4 (skipping the next
/// instruction) when `VX == NN`, `VX != NN`, `VX == VY` and `VX != VY`
/// respectively, and by 2 otherwise; nothing else changes.
pub proof fn lemma_conditional_skips(s: Chip8View, b: u8)
    requires
        fetching(s),
    ensures
        ({
            let t = step(s, b).0;
            let g = hi(s) / 16;
            let next = |skip: bool| (Chip8View { pc: (s.pc + if skip { 4int } else { 2int }) as u16, ..s });
            &&& (g == 0x3 || g == 0x4 || g == 0x5 || g == 0x9) ==> step(s, b).1 == StepOutcome::Executed
            &&& g == 0x3 ==> t == next(vx(s) == lo(s))
            &&& g == 0x4 ==> t == next(vx(s) != lo(s))
            &&& g == 0x5 ==> t == next(vx(s) == vy(s))
            &&& g == 0x9 ==> t == next(vx(s) != vy(s))
            &&& (g == 0x3 || g == 0x4 || g == 0x5 || g == 0x9) ==> (t.pc == s.pc + 4 || t.pc
                == s.pc + 2)
        }),
{
    lemma_decode(s);
    lemma_unfold_step(s, b);
}

/// `EX9E` skips the next instruction when the key `VX % 16` is down, `EXA1`
/// when it is up; nothing else changes.
pub proof fn lemma_key_skips(s: Chip8View, b: u8)
    requires
        fetching(s),
        hi(s) / 16 == 0xE,
    ensures
        ({
            let t = step(s, b).0;
            let down = s.keys[(vx(s) % 16) as int];
            &&& lo(s) == 0x9E ==> t == (Chip8View {
                pc: (s.pc + if down { 4int } else { 2int }) as u16,
                ..s
            })
            &&& lo(s) == 0xA1 ==> t == (Chip8View {
                pc: (s.pc + if down { 2int } else { 4int }) as u16,
                ..s
            })
            &&& (lo(s) == 0x9E || lo(s) == 0xA1) ==> step(s, b).1 == StepOutcome::Executed
        }),
{
    lemma_decode(s);
    lemma_unfold_step(s, b);
}

/// `6XNN` sets `VX` to `NN`, `7XNN` adds `NN` to `VX` modulo 256 leaving `VF`
/// alone, `ANNN` sets `I` to `NNN`, and `CXNN` sets `VX` to the random byte
/// masked by `NN`; nothing else changes.
pub proof fn lemma_loads(s: Chip8View, b: u8)
    requires
        fetching(s),
    ensures
        ({
            let t = step(s, b).0;
            let g = hi(s) / 16;
            let x = x_of(s);
            &&& (g == 0x6 || g == 0x7 || g == 0xA || g == 0xC) ==> step(s, b).1
                == StepOutcome::Executed
            &&& g == 0x6 ==> t == (Chip8View {
                registers: s.registers.update(x, lo(s)),
                pc: (s.pc + 2) as u16,
                ..s
            })
            &&& g == 0x7 ==> (t.registers[x] as int - vx(s) - lo(s)) % 256 == 0
            &&& g == 0x7 ==> t == (Chip8View {
                registers: s.registers.update(x, t.registers[x]),
                pc: (s.pc + 2) as u16,
                ..s
            })
            &&& g == 0xA ==> t == (Chip8View {
                index_register: ((hi(s) % 16) * 256 + lo(s)) as u16,
                pc: (s.pc + 2) as u16,
                ..s
            })
            &&& g == 0xC ==> t == (Chip8View {
                registers: s.registers.update(x, b & lo(s)),
                pc: (s.pc + 2) as u16,
                ..s
            })
        }),
{
    lemma_decode(s);
    lemma_unfold_step(s, b);
    let t = step(s, b).0;
    if hi(s) / 16 == 0x7 {
        assert(t.registers =~= s.registers.update(x_of(s), t.registers[x_of(s)]));
    }
}

/// `8XY0` to `8XY3` set `VX` to `VY`, `VX | VY`, `VX & VY` and `VX ^ VY`;
/// nothing else changes.
pub proof fn lemma_register_logic(s: Chip8View, b: u8)
    requires
        fetching(s),
        hi(s) / 16 == 0x8,
    ensures
        ({
            let t = step(s, b).0;
            let x = x_of(s);
            let n = lo(s) % 16;
            let set = |v: u8|
                (Chip8View { registers: s.registers.update(x, v), pc: (s.pc + 2) as u16, ..s });
            &&& n <= 3 ==> step(s, b).1 == StepOutcome::Executed
            &&& n == 0 ==> t == set(vy(s))
            &&& n == 1 ==> t == set(vx(s) | vy(s))
            &&& n == 2 ==> t == set(vx(s) & vy(s))
            &&& n == 3 ==> t == set(vx(s) ^ vy(s))
        }),
{
    lemma_decode(s);
    lemma_unfold_step(s, b);
}

/// `8XY4`, `8XY5`, `8XY7` and `8XYE`: `VF` is the carry out of `VX + VY`,
/// 1 exactly when `VX - VY` (respectively `VY - VX`) needs no borrow, and the
/// bit shifted out of the top of `VX`; when `X` is not `F`, `VX` together with
/// `VF` makes up the true result. Only `VX`, `VF` and `pc` change.
pub proof fn lemma_register_arithmetic(s: Chip8View, b: u8)
    requires
        fetching(s),
        hi(s) / 16 == 0x8,
    ensures
        ({
            let t = step(s, b).0;
            let x = x_of(s);
            let n = lo(s) % 16;
            let f = t.registers[15];
            &&& (n == 4 || n == 5 || n == 7 || n == 0xE) ==> {
                &&& step(s, b).1 == StepOutcome::Executed
                &&& f <= 1
                &&& forall|i: int| 0 <= i < 15 && i != x ==> t.registers[i] == s.registers[i]
                &&& t == (Chip8View { registers: t.registers, pc: (s.pc + 2) as u16, ..s })
            }
            &&& n == 4 ==> (f == 1 <==> vx(s) + vy(s) > 255)
            &&& (n == 4 && x != 15) ==> t.registers[x] + 256 * f == vx(s) + vy(s)
            &&& n == 5 ==> (f == 1 <==> vx(s) >= vy(s))
            &&& (n == 5 && x != 15) ==> t.registers[x] == vx(s) - vy(s) + 256 * (1 - f)
            &&& n == 7 ==> (f == 1 <==> vy(s) >= vx(s))
            &&& (n == 7 && x != 15) ==> t.registers[x] == vy(s) - vx(s) + 256 * (1 - f)
            &&& n == 0xE ==> f == vx(s) / 128
            &&& (n == 0xE && x != 15) ==> t.registers[x] + 256 * f == 2 * vx(s)
        }),
{
    lemma_decode(s);
    lemma_unfold_step(s, b);
}

/// The other `8XYN` opcodes, and `0NNN`, `EXNN`, `FXNN` with no meaning, are
/// reported unknown and change nothing but `pc`.
pub proof fn lemma_unknown_opcodes(s: Chip8View, b: u8)
    requires
        fetching(s),
        ({
            let g = hi(s) / 16;
            let n = lo(s) % 16;
            let nn = lo(s);
            ||| g == 0x0 && nn != 0xE0 && nn != 0xEE
            ||| g == 0x8 && 8 <= n <= 0xD
            ||| g == 0x8 && n == 0xF
            ||| g == 0xE && nn != 0x9E && nn != 0xA1
            ||| g == 0xF && nn != 0x07 && nn != 0x0A && nn != 0x15 && nn != 0x18 && nn != 0x1E
                && nn != 0x29 && nn != 0x33 && nn != 0x55 && nn != 0x65
        }),
    ensures
        step(s, b).1 == StepOutcome::UnknownOpcode((hi(s) * 256 + lo(s)) as u16),
        step(s, b).0 == (Chip8View { pc: (s.pc + 2) as u16, ..s }),
{
    lemma_decode(s);
    lemma_unfold_step(s, b);
}

/// `FX07` copies the delay timer into `VX`, `FX15` sets the delay timer and
/// `FX18` the sound timer to `VX`; `FX0A` starts waiting for a key to go into
/// `VX`. Nothing else changes.
pub proof fn lemma_timers_and_key_wait(s: Chip8View, b: u8)
    requires
        fetching(s),
        hi(s) / 16 == 0xF,
    ensures
        ({
            let t = step(s, b).0;
            let x = x_of(s);
            let next = (Chip8View { pc: (s.pc + 2) as u16, ..s });
            &&& (lo(s) == 0x07 || lo(s) == 0x0A || lo(s) == 0x15 || lo(s) == 0x18) ==> step(
                s,
                b,
            ).1 == StepOutcome::Executed
            &&& lo(s) == 0x07 ==> t == (Chip8View {
                registers: s.registers.update(x, s.delay_timer),
                ..next
            })
            &&& lo(s) == 0x07 ==> t.registers[x] == s.delay_timer
            &&& lo(s) == 0x0A ==> t == (Chip8View {
                waiting_on_key: true,
                key_register: x as usize,
                ..next
            })
            &&& lo(s) == 0x15 ==> t == (Chip8View { delay_timer: vx(s), ..next })
            &&& lo(s) == 0x18 ==> t == (Chip8View { sound_timer: vx(s), ..next })
        }),
{
    lemma_decode(s);
    lemma_unfold_step(s, b);
}

/// `FX15` then `FX07`: the delay timer carries `VX` into the second register.
pub proof fn lemma_delay_timer_round_trip(s: Chip8View, b1: u8, b2: u8)
    requires
        fetching(s),
        hi(s) / 16 == 0xF,
        lo(s) == 0x15,
        fetching(step(s, b1).0),
        hi(step(s, b1).0) / 16 == 0xF,
        lo(step(s, b1).0) == 0x07,
    ensures
        step(step(s, b1).0, b2).0.registers[x_of(step(s, b1).0)] == vx(s),
{
    lemma_timers_and_key_wait(s, b1);
    lemma_timers_and_key_wait(step(s, b1).0, b2);
}

/// `FX1E` adds `VX` to `I`, `FX29` points `I` at the font glyph of `VX`
/// (five bytes per glyph from `FONT_START`); nothing else changes.
pub proof fn lemma_index_arithmetic(s: Chip8View, b: u8)
    requires
        fetching(s),
        hi(s) / 16 == 0xF,
    ensures
        ({
            let t = step(s, b).0;
            let next = (Chip8View { pc: (s.pc + 2) as u16, ..s });
            &&& (lo(s) == 0x1E && s.index_register + vx(s) <= u16::MAX) ==> t == (Chip8View {
                index_register: (s.index_register + vx(s)) as u16,
                ..next
            }) && t.index_register == s.index_register + vx(s)
            &&& (lo(s) == 0x29 && vx(s) * 5 <= u8::MAX) ==> t == (Chip8View {
                index_register: (crate::font::FONT_START + 5 * vx(s)) as u16,
                ..next
            }) && t.index_register == crate::font::FONT_START + 5 * vx(s)
        }),
{
    lemma_decode(s);
    lemma_unfold_step(s, b);
}

/// `FX55` stores `V0` to `VX` at `I` onwards and `FX65` loads them from
/// there; nothing else changes.
pub proof fn lemma_register_dump_and_load(s: Chip8View, b: u8)
    requires
        fetching(s),
        hi(s) / 16 == 0xF,
        s.index_register + x_of(s) + 1 <= MEMORY_SIZE,
    ensures
        ({
            let t = step(s, b).0;
            let x = x_of(s);
            let i = s.index_register as int;
            &&& lo(s) == 0x55 ==> {
                &&& forall|j: int| 0 <= j <= x ==> t.memory[i + j] == s.registers[j]
                &&& forall|m: int|
                    0 <= m < MEMORY_SIZE && !(i <= m <= i + x) ==> t.memory[m] == s.memory[m]
                &&& t.memory.len() == s.memory.len()
                &&& t == (Chip8View { memory: t.memory, pc: (s.pc + 2) as u16, ..s })
            }
            &&& lo(s) == 0x65 ==> {
                &&& forall|j: int| 0 <= j <= x ==> t.registers[j] == s.memory[i + j]
                &&& forall|j: int| x < j < 16 ==> t.registers[j] == s.registers[j]
                &&& t.registers.len() == s.registers.len()
                &&& t == (Chip8View { registers: t.registers, pc: (s.pc + 2) as u16, ..s })
            }
        }),
{
    lemma_decode(s);
    lemma_unfold_step(s, b);
}

/// `FX33` stores the hundreds, tens and ones digits of `VX` at `I`, `I + 1`
/// and `I + 2`; nothing else changes.
pub proof fn lemma_decimal_store(s: Chip8View, b: u8)
    requires
        fetching(s),
        hi(s) / 16 == 0xF,
        lo(s) == 0x33,
        s.index_register + 2 < MEMORY_SIZE,
    ensures
        ({
            let t = step(s, b).0;
            let i = s.index_register as int;
            &&& t.memory[i] * 100 + t.memory[i + 1] * 10 + t.memory[i + 2] == vx(s)
            &&& t.memory[i + 1] < 10
            &&& t.memory[i + 2] < 10
            &&& forall|m: int|
                0 <= m < MEMORY_SIZE && !(i <= m <= i + 2) ==> t.memory[m] == s.memory[m]
            &&& t == (Chip8View { memory: t.memory, pc: (s.pc + 2) as u16, ..s })
        }),
{
    lemma_decode(s);
    lemma_unfold_step(s, b);
    let v = vx(s);
    assert((v / 100) * 100 + ((v / 10) % 10) * 10 + v % 10 == v);
}

/// `DXYN` XORs bit `7 - c` of sprite byte `r` (the bytes starting at `I`) onto
/// the pixel at column `VX % 64 + c`, row `VY % 32 + r`, for `c < 8` and
/// `r < N`, dropping the cells past the right and bottom edges; no other pixel
/// changes. `VF` is then 1 if some lit pixel was turned off and 0 otherwise,
/// whatever it held before. Nothing else but `pc` changes.
pub proof fn lemma_draw(s: Chip8View, b: u8)
    requires
        fetching(s),
        hi(s) / 16 == 0xD,
    ensures
        ({
            let t = step(s, b).0;
            let n = (lo(s) % 16) as int;
            let i = s.index_register as int;
            &&& step(s, b).1 == StepOutcome::Executed
            &&& t.screen.len() == s.screen.len()
            &&& forall|p: int|
                #![trigger t.screen[p]]
                0 <= p < s.screen.len() ==> {
                    let c = p % 64 - vx(s) % 64;
                    let r = p / 64 - vy(s) % 32;
                    if 0 <= c < 8 && 0 <= r < n {
                        t.screen[p] == s.screen[p] ^ ((s.memory[i + r] >> ((7 - c) as u8)) & 1u8)
                    } else {
                        t.screen[p] == s.screen[p]
                    }
                }
            &&& (exists|p: int| 0 <= p < s.screen.len() && s.screen[p] == 1 && t.screen[p] == 0)
                ==> t.registers[15] == 1
            &&& !(exists|p: int| 0 <= p < s.screen.len() && s.screen[p] == 1 && t.screen[p] == 0)
                ==> t.registers[15] == 0
            &&& forall|j: int| 0 <= j < 15 ==> t.registers[j] == s.registers[j]
            &&& t == (Chip8View {
                screen: t.screen,
                registers: t.registers,
                pc: (s.pc + 2) as u16,
                ..s
            })
        }),
{
    lemma_decode(s);
    lemma_unfold_step(s, b);
    let t = step(s, b).0;
    let n = (lo(s) % 16) as int;
    let i = s.index_register as int;
    let x = vx(s);
    let y = vy(s);
    if exists|p: int| 0 <= p < s.screen.len() && s.screen[p] == 1 && t.screen[p] == 0 {
        let p = choose|p: int| 0 <= p < s.screen.len() && s.screen[p] == 1 && t.screen[p] == 0;
        if in_sprite(p, x, y, n, 8 * n) {
            lemma_xor_off(sprite_bit(s.memory, i, p, x, y));
            assert(collides(s.screen, s.memory, i, x, y, n, 8 * n));
        }
    }
    if collides(s.screen, s.memory, i, x, y, n, 8 * n) {
        let p = choose|p: int|
            0 <= p < s.screen.len() && #[trigger] in_sprite(p, x, y, n, 8 * n) && s.screen[p] == 1
                && sprite_bit(s.memory, i, p, x, y) == 1;
        lemma_xor_off(sprite_bit(s.memory, i, p, x, y));
        assert(t.screen[p] == s.screen[p] ^ sprite_bit(s.memory, i, p, x, y));
        assert(s.screen[p] == 1 && t.screen[p] == 0);
    }
}

/// Only a set bit turns a lit pixel off: `1 ^ v == 0` exactly when `v == 1`.
proof fn lemma_xor_off(v: u8)
    by (bit_vector)
    ensures
        (1u8 ^ v == 0) == (v == 1),
{
}

/// `set_key(key, pressed)` records `pressed` for `key` and leaves every other
/// key alone. The wait of `FX0A` ends exactly on a press of a key that was up,
/// and then that key goes into the waiting register; nothing else changes.
pub proof fn lemma_set_key(s: Chip8View, key: int, pressed: bool)
    requires
        s.wf(),
        0 <= key < 16,
    ensures
        ({
            let t = set_key_state(s, key, pressed);
            let fresh = pressed && !s.keys[key];
            &&& t.keys.len() == 16
            &&& t.keys[key] == pressed
            &&& forall|k: int| 0 <= k < 16 && k != key ==> t.keys[k] == s.keys[k]
            &&& t.waiting_on_key == (s.waiting_on_key && !fresh)
            &&& (s.waiting_on_key && fresh) ==> t == (Chip8View {
                keys: t.keys,
                waiting_on_key: false,
                registers: s.registers.update(s.key_register as int, key as u8),
                ..s
            })
            &&& !(s.waiting_on_key && fresh) ==> t == (Chip8View { keys: t.keys, ..s })
        }),
{
}

/// `set_pixel(x, y, value)` XORs `value` onto the pixel at column `x`, row `y`
/// when it lies on the screen, setting `VF` to 1 when a lit pixel meets a set
/// `value` and leaving it alone otherwise; off the screen nothing changes.
pub proof fn lemma_set_pixel(s: Chip8View, x: int, y: int, value: u8)
    requires
        s.wf(),
        0 <= x,
        0 <= y,
    ensures
        ({
            let t = set_pixel_state(s, x, y, value);
            &&& (x >= 64 || y >= 32) ==> t == s
            &&& (x < 64 && y < 32) ==> {
                &&& t.screen[y * 64 + x] == s.screen[y * 64 + x] ^ value
                &&& forall|p: int| 0 <= p < 2048 && p != y * 64 + x ==> t.screen[p] == s.screen[p]
                &&& t.registers[15] == if s.screen[y * 64 + x] == 1 && value == 1 {
                    1
                } else {
                    s.registers[15]
                }
                &&& forall|j: int| 0 <= j < 15 ==> t.registers[j] == s.registers[j]
                &&& t == (Chip8View { screen: t.screen, registers: t.registers, ..s })
            }
        }),
{
}

/// Loading puts byte `j` of the program at `PROGRAM_START + j` and leaves every
/// other byte of memory alone.
pub proof fn lemma_loaded_memory(mem: Seq<u8>, rom: Seq<u8>)
    requires
        mem.len() == MEMORY_SIZE,
        rom.len() <= MEMORY_SIZE - crate::chip8::PROGRAM_START,
    ensures
        loaded_memory(mem, rom).len() == MEMORY_SIZE,
        forall|j: int| 0 <= j < rom.len() ==> loaded_memory(mem, rom)[0x200 + j] == rom[j],
        forall|m: int|
            0 <= m < MEMORY_SIZE && !(0x200 <= m < 0x200 + rom.len()) ==> loaded_memory(mem, rom)[m]
                == mem[m],
{
}

/// A fresh machine: all registers, timers, keys, stack and pixels zero, `pc`
/// at 0x200, `I` zero, the font bytes from 0x50 and zero elsewhere in memory.
pub proof fn lemma_fresh_machine()
    ensures
        ({
            let s = initial_state();
            &&& s.wf()
            &&& s.pc == 0x200
            &&& s.index_register == 0
            &&& s.sp == 0
            &&& s.delay_timer == 0
            &&& s.sound_timer == 0
            &&& !s.waiting_on_key
            &&& forall|j: int| 0 <= j < 16 ==> s.registers[j] == 0 && !s.keys[j] && s.stack[j] == 0
            &&& forall|p: int| 0 <= p < 2048 ==> s.screen[p] == 0
            &&& forall|j: int| 0 <= j < 80 ==> s.memory[0x50 + j] == crate::font::FONT[j]
            &&& forall|m: int| 0 <= m < MEMORY_SIZE && !(0x50 <= m < 0x50 + 80) ==> s.memory[m] == 0
        }),
{
}

/// Each pixel gives four equal RGBA bytes: 255 for a lit pixel, 0 otherwise.
pub proof fn lemma_rgba_pixel(screen: Seq<u8>, p: int, k: int)
    requires
        0 <= p < screen.len(),
        0 <= k < 4,
    ensures
        rgba_channel(screen, 4 * p + k) == if screen[p] == 1 {
            255u8
        } else {
            0u8
        },
{
    assert((4 * p + k) / 4 == p);
}

/// A step stays inside the machine exactly when the machine waits for a key,
/// or the opcode lies inside memory and: a call (`2NNN`) finds room on the
/// stack, a sprite (`DXYN`, `N > 0`) lies inside memory, `FX1E` keeps `I`
/// within 16 bits, `FX29` asks for a glyph below 52, and `FX33`, `FX55` and
/// `FX65` stay inside memory.
pub proof fn lemma_in_bounds(s: Chip8View)
    requires
        s.wf(),
        s.pc + 1 < MEMORY_SIZE || s.waiting_on_key,
    ensures
        step_in_bounds(s) == (s.waiting_on_key || {
            let g = hi(s) / 16;
            let i = s.index_register as int;
            let n = lo(s) % 16;
            &&& s.pc + 1 < MEMORY_SIZE
            &&& g == 0x2 ==> s.sp < 16
            &&& g == 0xD ==> (n == 0 || i + n <= MEMORY_SIZE)
            &&& (g == 0xF && lo(s) == 0x1E) ==> i + vx(s) <= 0xFFFF
            &&& (g == 0xF && lo(s) == 0x29) ==> vx(s) < 52
            &&& (g == 0xF && lo(s) == 0x33) ==> i + 2 < MEMORY_SIZE
            &&& (g == 0xF && (lo(s) == 0x55 || lo(s) == 0x65)) ==> i + x_of(s) + 1 <= MEMORY_SIZE
        }),
{
    if !s.waiting_on_key {
        lemma_decode(s);
    }
}

} // verus!
