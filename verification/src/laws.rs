//! Properties of the machine that span instructions and operations.

use vstd::prelude::*;
use crate::chip8::MEMORY_SIZE;
use crate::font::FONT_START;
use crate::model::{
    Chip8View, StepOutcome, draw_screen, loaded_memory, op_group, op_n, op_nn, op_nnn, op_x, op_y,
    opcode_at, set_key_state, set_pixel_state, sprite_bit, sprite_col, sprite_row, step,
    step_in_bounds, tick_state,
};

verus! {

/// Every step that stays in bounds keeps the machine well formed.
pub proof fn lemma_step_keeps_wf(s: Chip8View, random_byte: u8)
    requires
        s.wf(),
        step_in_bounds(s),
    ensures
        step(s, random_byte).0.wf(),
{
}

/// The random byte matters only to `CXNN`: every other step, and every step
/// while waiting for a key, comes out the same whatever byte is drawn.
pub proof fn lemma_randomness_only_in_cxnn(s: Chip8View, b1: u8, b2: u8)
    requires
        s.wf(),
        s.waiting_on_key || op_group(opcode_at(s.memory, s.pc as int)) != 0xC,
    ensures
        step(s, b1) == step(s, b2),
{
}

/// An unknown opcode changes nothing but the program counter, which moves
/// past it.
pub proof fn lemma_unknown_opcode_only_advances(s: Chip8View, random_byte: u8)
    requires
        step(s, random_byte).1 is UnknownOpcode,
    ensures
        step(s, random_byte).0 == (Chip8View { pc: (s.pc + 2) as u16, ..s }),
        step(s, random_byte).1 == StepOutcome::UnknownOpcode(opcode_at(s.memory, s.pc as int)),
{
}

/// A call (`2NNN`) to a subroutine that returns at once (`00EE`) leaves the
/// machine as it was, with the program counter past the call.
pub proof fn lemma_call_then_return(s: Chip8View, b1: u8, b2: u8)
    requires
        s.wf(),
        !s.waiting_on_key,
        s.sp < 16,
        s.pc + 1 < MEMORY_SIZE,
        op_group(opcode_at(s.memory, s.pc as int)) == 0x2,
        op_nnn(opcode_at(s.memory, s.pc as int)) + 1 < MEMORY_SIZE,
        op_group(
            opcode_at(s.memory, op_nnn(opcode_at(s.memory, s.pc as int)) as int),
        ) == 0x0,
        op_nn(opcode_at(s.memory, op_nnn(opcode_at(s.memory, s.pc as int)) as int)) == 0xEE,
    ensures
        step(step(s, b1).0, b2).0 == (Chip8View { pc: (s.pc + 2) as u16, ..s }),
{
    let t = step(s, b1).0;
    let u = step(t, b2).0;
    assert(u.stack =~= s.stack);
}

/// Drawing the same sprite twice at the same place leaves the screen as it was.
pub proof fn lemma_draw_twice_restores(
    screen: Seq<u8>,
    mem: Seq<u8>,
    start: int,
    vx: u8,
    vy: u8,
    n: int,
)
    ensures
        draw_screen(
            draw_screen(screen, mem, start, vx, vy, n, 8 * n),
            mem,
            start,
            vx,
            vy,
            n,
            8 * n,
        ) == screen,
{
    let once = draw_screen(screen, mem, start, vx, vy, n, 8 * n);
    let twice = draw_screen(once, mem, start, vx, vy, n, 8 * n);
    assert forall|p: int| 0 <= p < screen.len() implies twice[p] == screen[p] by {
        lemma_xor_twice(screen[p], sprite_bit(mem, start, p, vx, vy));
    }
    assert(twice =~= screen);
}

/// XOR-ing a pixel twice with the same value leaves the screen as it was.
pub proof fn lemma_set_pixel_twice_restores(s: Chip8View, x: int, y: int, value: u8)
    requires
        s.wf(),
        0 <= x,
        0 <= y,
    ensures
        set_pixel_state(set_pixel_state(s, x, y, value), x, y, value).screen == s.screen,
{
    if x < 64 && y < 32 {
        let i = y * 64 + x;
        lemma_xor_twice(s.screen[i], value);
        assert(set_pixel_state(set_pixel_state(s, x, y, value), x, y, value).screen =~= s.screen);
    }
}

/// `(a ^ b) ^ b == a`.
pub proof fn lemma_xor_twice(a: u8, b: u8)
    by (bit_vector)
    ensures
        (a ^ b) ^ b == a,
{
}

/// `FX0A` makes the machine wait: until a key that was up is pressed, steps
/// do nothing; that press stores the key in `VX` and ends the wait, with the
/// program counter past `FX0A`. Releasing a key, or pressing one already held,
/// does not end the wait.
pub proof fn lemma_key_wait(s: Chip8View, b1: u8, b2: u8, key: int, other: int)
    requires
        s.wf(),
        !s.waiting_on_key,
        s.pc + 1 < MEMORY_SIZE,
        op_group(opcode_at(s.memory, s.pc as int)) == 0xF,
        op_nn(opcode_at(s.memory, s.pc as int)) == 0x0A,
        0 <= key < 16,
        0 <= other < 16,
        !s.keys[key],
    ensures
        ({
            let x = op_x(opcode_at(s.memory, s.pc as int));
            let t = step(s, b1).0;
            let u = set_key_state(t, key, true);
            &&& t.waiting_on_key
            &&& step(t, b2) == (t, StepOutcome::Waiting)
            &&& set_key_state(t, other, false).waiting_on_key
            &&& t.keys[other] ==> set_key_state(t, other, true).waiting_on_key
            &&& !u.waiting_on_key
            &&& u.registers[x] == key
            &&& u.pc == s.pc + 2
        }),
{
}

/// `FX33` stores the decimal digits of `VX` at `I`, `I + 1` and `I + 2`,
/// hundreds first.
pub proof fn lemma_bcd_digits(s: Chip8View, b: u8)
    requires
        s.wf(),
        step_in_bounds(s),
        !s.waiting_on_key,
        op_group(opcode_at(s.memory, s.pc as int)) == 0xF,
        op_nn(opcode_at(s.memory, s.pc as int)) == 0x33,
    ensures
        ({
            let op = opcode_at(s.memory, s.pc as int);
            let vx = s.registers[op_x(op)];
            let i = s.index_register as int;
            let m = step(s, b).0.memory;
            &&& m[i] * 100 + m[i + 1] * 10 + m[i + 2] == vx
            &&& m[i + 1] < 10
            &&& m[i + 2] < 10
        }),
{
    let op = opcode_at(s.memory, s.pc as int);
    let t = Chip8View { pc: (s.pc + 2) as u16, ..s };
    let vx = s.registers[op_x(op)];
    let i = s.index_register as int;
    assert(step(s, b) == crate::model::execute(t, op, b));
    assert(step(s, b).0.memory == s.memory.update(i, vx / 100).update(i + 1, (vx / 10) % 10).update(
        i + 2,
        vx % 10,
    ));
    lemma_decimal_digits(vx);
}

/// A byte is its hundreds, tens and ones digits.
proof fn lemma_decimal_digits(v: u8)
    ensures
        (v / 100) * 100 + ((v / 10) % 10) * 10 + v % 10 == v,
        (v / 10) % 10 < 10,
        v % 10 < 10,
{
}

/// `8XY4` (`X` not `F`): `VX + 256 * VF` is the true sum of `VX` and `VY`.
pub proof fn lemma_add_carry(s: Chip8View, b: u8)
    requires
        s.wf(),
        !s.waiting_on_key,
        s.pc + 1 < MEMORY_SIZE,
        op_group(opcode_at(s.memory, s.pc as int)) == 0x8,
        op_n(opcode_at(s.memory, s.pc as int)) == 0x4,
        op_x(opcode_at(s.memory, s.pc as int)) != 15,
    ensures
        ({
            let op = opcode_at(s.memory, s.pc as int);
            let t = step(s, b).0;
            &&& t.registers[op_x(op)] + 256 * t.registers[15] == s.registers[op_x(op)]
                + s.registers[op_y(op)]
            &&& t.registers[15] <= 1
        }),
{
}

/// `8XY5` (`X` not `F`): `VX` is `VX - VY`, plus 256 exactly when `VF` tells
/// of a borrow (`VF == 0`).
pub proof fn lemma_sub_borrow(s: Chip8View, b: u8)
    requires
        s.wf(),
        !s.waiting_on_key,
        s.pc + 1 < MEMORY_SIZE,
        op_group(opcode_at(s.memory, s.pc as int)) == 0x8,
        op_n(opcode_at(s.memory, s.pc as int)) == 0x5,
        op_x(opcode_at(s.memory, s.pc as int)) != 15,
    ensures
        ({
            let op = opcode_at(s.memory, s.pc as int);
            let t = step(s, b).0;
            &&& t.registers[op_x(op)] == s.registers[op_x(op)] - s.registers[op_y(
                op,
            )] + 256 * (1 - t.registers[15])
            &&& t.registers[15] <= 1
        }),
{
}

/// Every pixel is off (0) or on (1).
pub open spec fn screen_is_binary(screen: Seq<u8>) -> bool {
    forall|i: int| 0 <= i < screen.len() ==> #[trigger] screen[i] == 0 || screen[i] == 1
}

/// Instructions keep every pixel off or on.
pub proof fn lemma_step_keeps_screen_binary(s: Chip8View, b: u8)
    requires
        s.wf(),
        screen_is_binary(s.screen),
    ensures
        screen_is_binary(step(s, b).0.screen),
{
    if !s.waiting_on_key {
        let op = opcode_at(s.memory, s.pc as int);
        if op_group(op) == 0xD {
            let t = Chip8View { pc: (s.pc + 2) as u16, ..s };
            let vx = t.registers[op_x(op)];
            let vy = t.registers[op_y(op)];
            let n = op_n(op) as int;
            let start = t.index_register as int;
            let scr = draw_screen(s.screen, s.memory, start, vx, vy, n, 8 * n);
            assert forall|p: int| 0 <= p < scr.len() implies #[trigger] scr[p] == 0 || scr[p]
                == 1 by {
                let r = sprite_row(p, vy);
                let c = sprite_col(p, vx);
                lemma_xor_bit_binary(s.screen[p], s.memory[start + r], (7 - c) as u8);
            }
        }
    }
}

/// A pixel that is 0 or 1 stays so when a sprite bit is XOR-ed onto it.
pub proof fn lemma_xor_bit_binary(a: u8, byte: u8, shift: u8)
    by (bit_vector)
    requires
        a == 0 || a == 1,
    ensures
        (a ^ ((byte >> shift) & 1u8)) == 0 || (a ^ ((byte >> shift) & 1u8)) == 1,
{
}

/// Loading a program never touches the font, which lies below `PROGRAM_START`.
pub proof fn lemma_load_keeps_font(mem: Seq<u8>, rom: Seq<u8>)
    requires
        mem.len() == MEMORY_SIZE,
    ensures
        loaded_memory(mem, rom).subrange(FONT_START as int, FONT_START + 80) == mem.subrange(
            FONT_START as int,
            FONT_START + 80,
        ),
{
    assert(loaded_memory(mem, rom).subrange(FONT_START as int, FONT_START + 80) =~= mem.subrange(
        FONT_START as int,
        FONT_START + 80,
    ));
}

/// The machine after `k` calls of `tick_timers`.
pub open spec fn ticked(s: Chip8View, k: nat) -> Chip8View
    decreases k,
{
    if k == 0 {
        s
    } else {
        tick_state(ticked(s, (k - 1) as nat))
    }
}

/// A timer `k` ticks later: `t - k`, but never below zero.
pub open spec fn count_down(t: u8, k: nat) -> u8 {
    if t >= k {
        (t - k) as u8
    } else {
        0
    }
}

/// `k` calls of `tick_timers` take each timer down by `k`, stopping at zero
/// and never wrapping, and change nothing else; after 255 calls both timers
/// are zero, and from then on a tick changes nothing.
pub proof fn lemma_timers_count_down(s: Chip8View, k: nat)
    ensures
        ticked(s, k) == (Chip8View {
            delay_timer: count_down(s.delay_timer, k),
            sound_timer: count_down(s.sound_timer, k),
            ..s
        }),
        k >= 255 ==> ticked(s, k).delay_timer == 0 && ticked(s, k).sound_timer == 0,
        k >= 255 ==> tick_state(ticked(s, k)) == ticked(s, k),
    decreases k,
{
    if k > 0 {
        lemma_timers_count_down(s, (k - 1) as nat);
    }
}

} // verus!
