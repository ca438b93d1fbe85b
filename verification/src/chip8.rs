//! The machine itself: registers, memory, stack, timers, keypad and screen.

use vstd::prelude::*;
use rand::RngExt;
use crate::font::{FONT, FONT_START};
use crate::model::{
    Chip8View, StepOutcome, collides, draw, draw_screen, execute, initial_memory, initial_state,
    lemma_draw_cell, op_group, op_in_bounds, opcode_at, set_key_state, set_pixel_state, step,
    step_in_bounds, tick_state, loaded_memory, max_rom_size,
};

verus! {

/// Number of bytes of memory.
pub const MEMORY_SIZE: usize = 4096;

/// Address at which programs are loaded and execution starts.
pub const PROGRAM_START: usize = 0x200;

/// Width of the screen in pixels.
pub const SCREEN_WIDTH: usize = 64;

/// Height of the screen in pixels.
pub const SCREEN_HEIGHT: usize = 32;

/// Number of pixels of the screen.
pub const PIXELS: usize = 64 * 32;

/// Why a program could not be loaded.
#[derive(Clone, Copy, Debug, PartialEq, Eq, Structural)]
pub enum LoadError {
    /// The program is longer than the `max_size` bytes of memory after `PROGRAM_START`.
    RomTooLarge { max_size: usize },
}

/// A CHIP-8 machine.
pub struct Chip8 {
    registers: [u8; 16],
    memory: [u8; 4096],
    index_register: u16,
    pc: u16,
    stack: [u16; 16],
    sp: usize,
    delay_timer: u8,
    sound_timer: u8,
    screen: [u8; 2048],
    keys: [bool; 16],
    waiting_on_key: bool,
    key_register: usize,
}

impl View for Chip8 {
    type V = Chip8View;

    closed spec fn view(&self) -> Chip8View {
        Chip8View {
            registers: self.registers@,
            memory: self.memory@,
            index_register: self.index_register,
            pc: self.pc,
            stack: self.stack@,
            sp: self.sp,
            delay_timer: self.delay_timer,
            sound_timer: self.sound_timer,
            screen: self.screen@,
            keys: self.keys@,
            waiting_on_key: self.waiting_on_key,
            key_register: self.key_register,
        }
    }
}

impl Chip8 {
    /// Every machine is well formed (see `Chip8View::wf`).
    #[verifier::type_invariant]
    spec fn well_formed(self) -> bool {
        self@.wf()
    }

    /// A machine with cleared registers, stack, timers, keys and screen, the
    /// font loaded at `FONT_START`, and `pc` at `PROGRAM_START`.
    pub fn new() -> (c: Self)
        ensures
            c@ == initial_state(),
            c@.wf(),
    {
        let mut memory = [0u8; 4096];
        let mut k: usize = 0;
        while k < 80
            invariant
                k <= 80,
                forall|i: int|
                    0 <= i < 4096 ==> #[trigger] memory@[i] == if FONT_START <= i < FONT_START + k {
                        FONT@[i - FONT_START]
                    } else {
                        0u8
                    },
            decreases 80 - k,
        {
            memory[FONT_START + k] = FONT[k];
            k += 1;
        }
        let c = Chip8 {
            registers: [0u8; 16],
            memory,
            index_register: 0u16,
            pc: 0x200,
            stack: [0u16; 16],
            sp: 0,
            delay_timer: 0u8,
            sound_timer: 0u8,
            screen: [0u8; 2048],
            keys: [false; 16],
            waiting_on_key: false,
            key_register: 0,
        };
        assert(c@.memory =~= initial_memory());
        assert(c@.registers =~= initial_state().registers);
        assert(c@.stack =~= initial_state().stack);
        assert(c@.screen =~= initial_state().screen);
        assert(c@.keys =~= initial_state().keys);
        c
    }

    /// Records whether `key` is pressed. A fresh press while the machine waits
    /// for a key (`FX0A`) stores the key in the waiting register and ends the wait.
    pub fn set_key(&mut self, key: usize, pressed: bool)
        requires
            key < 16,
        ensures
            final(self)@ == set_key_state(old(self)@, key as int, pressed),
            final(self)@.wf(),
    {
        proof {
            use_type_invariant(&*self);
        }
        let newly_pressed = pressed && !self.keys[key];
        self.keys[key] = pressed;
        if self.waiting_on_key && newly_pressed {
            self.waiting_on_key = false;
            self.registers[self.key_register] = key as u8;
        }
    }

    /// Moves both timers one tick down, stopping at zero.
    pub fn tick_timers(&mut self)
        ensures
            final(self)@ == tick_state(old(self)@),
            final(self)@.wf(),
    {
        proof {
            use_type_invariant(&*self);
        }
        self.delay_timer = self.delay_timer.saturating_sub(1);
        self.sound_timer = self.sound_timer.saturating_sub(1);
        proof {
            use_type_invariant(&*self);
        }
    }

    /// XORs `value` onto the pixel at column `x`, row `y`, and sets `VF` to 1
    /// when that turns a lit pixel off. Pixels off the screen are ignored.
    pub fn set_pixel(&mut self, x: usize, y: usize, value: u8)
        ensures
            final(self)@ == set_pixel_state(old(self)@, x as int, y as int, value),
            final(self)@.wf(),
    {
        proof {
            use_type_invariant(&*self);
        }
        if x >= 64 || y >= 32 {
            return;
        }
        let index = y * 64 + x;
        if self.screen[index] == 1 && value == 1 {
            self.registers[0xF] = 1;
        }
        self.screen[index] = self.screen[index] ^ value;
    }

    /// The screen, row by row, one byte per pixel.
    pub fn screen(&self) -> (s: &[u8])
        ensures
            self@.wf(),
            s@ == self@.screen,
            s@.len() == PIXELS,
    {
        proof {
            use_type_invariant(self);
        }
        &self.screen
    }

    /// Copies the program `rom` into memory from `PROGRAM_START` on. A program
    /// longer than the memory after `PROGRAM_START` is refused and nothing changes.
    pub fn load(&mut self, rom: &[u8]) -> (res: Result<(), LoadError>)
        ensures
            final(self)@.wf(),
            res is Ok <==> rom@.len() <= max_rom_size(),
            res is Ok ==> final(self)@ == (Chip8View {
                memory: loaded_memory(old(self)@.memory, rom@),
                ..old(self)@
            }),
            res is Err ==> res == Err::<(), LoadError>(
                LoadError::RomTooLarge { max_size: (MEMORY_SIZE - PROGRAM_START) as usize },
            ) && final(self)@ == old(self)@,
    {
        proof {
            use_type_invariant(&*self);
        }
        let start = PROGRAM_START;
        let max_size = MEMORY_SIZE - start;
        if rom.len() > max_size {
            return Err(LoadError::RomTooLarge { max_size });
        }
        let ghost s = self@;
        let mut j: usize = 0;
        while j < rom.len()
            invariant
                s.wf(),
                rom@.len() <= max_size,
                max_size == MEMORY_SIZE - start,
                start == PROGRAM_START,
                j <= rom@.len(),
                self@ == (Chip8View { memory: self@.memory, ..s }),
                self@.memory.len() == MEMORY_SIZE,
                forall|m: int|
                    0 <= m < MEMORY_SIZE ==> #[trigger] self@.memory[m] == if start <= m < start
                        + j {
                        rom@[m - start]
                    } else {
                        s.memory[m]
                    },
            decreases rom@.len() - j,
        {
            self.memory[start + j] = rom[j];
            j = j + 1;
        }
        assert(self@.memory =~= loaded_memory(s.memory, rom@));
        Ok(())
    }

    /// Carries out one step: see `step`. When the opcode is `CXNN` the byte
    /// it masks is drawn at random, so the new state is that of `step` for
    /// some byte.
    pub fn emulate(&mut self) -> (outcome: StepOutcome)
        requires
            step_in_bounds(old(self)@),
        ensures
            final(self)@.wf(),
            exists|b: u8|
                final(self)@ == (#[trigger] step(old(self)@, b)).0 && outcome == step(
                    old(self)@,
                    b,
                ).1,
            old(self)@.waiting_on_key || op_group(opcode_at(old(self)@.memory, old(self)@.pc as int))
                != 0xC ==> final(self)@ == step(old(self)@, 0).0 && outcome == step(old(self)@, 0).1,
    {
        proof {
            use_type_invariant(&*self);
        }
        let b = if !self.waiting_on_key && (self.fetch() >> 12) == 0xC {
            random_byte()
        } else {
            0
        };
        let ghost s = self@;
        let outcome = self.emulate_with(b);
        assert(self@ == step(s, b).0 && outcome == step(s, b).1);
        proof {
            if s.waiting_on_key || op_group(opcode_at(s.memory, s.pc as int)) != 0xC {
                crate::laws::lemma_randomness_only_in_cxnn(s, b, 0);
            }
        }
        outcome
    }

    /// Register `V{i}`.
    pub fn register(&self, i: usize) -> (v: u8)
        requires
            i < 16,
        ensures
            self@.wf(),
            v == self@.registers[i as int],
    {
        proof {
            use_type_invariant(self);
        }
        self.registers[i]
    }

    /// The byte at `addr`.
    pub fn memory_at(&self, addr: usize) -> (b: u8)
        requires
            addr < MEMORY_SIZE,
        ensures
            self@.wf(),
            b == self@.memory[addr as int],
    {
        proof {
            use_type_invariant(self);
        }
        self.memory[addr]
    }

    /// The program counter.
    pub fn pc(&self) -> (pc: u16)
        ensures
            self@.wf(),
            pc == self@.pc,
    {
        proof {
            use_type_invariant(self);
        }
        self.pc
    }

    /// The index register `I`.
    pub fn index_register(&self) -> (i: u16)
        ensures
            self@.wf(),
            i == self@.index_register,
    {
        proof {
            use_type_invariant(self);
        }
        self.index_register
    }

    /// How many return addresses the stack holds.
    pub fn stack_depth(&self) -> (d: usize)
        ensures
            self@.wf(),
            d == self@.sp,
    {
        proof {
            use_type_invariant(self);
        }
        self.sp
    }

    /// The delay timer.
    pub fn delay_timer(&self) -> (t: u8)
        ensures
            self@.wf(),
            t == self@.delay_timer,
    {
        proof {
            use_type_invariant(self);
        }
        self.delay_timer
    }

    /// The sound timer.
    pub fn sound_timer(&self) -> (t: u8)
        ensures
            self@.wf(),
            t == self@.sound_timer,
    {
        proof {
            use_type_invariant(self);
        }
        self.sound_timer
    }

    /// Whether the machine waits for a key press (`FX0A`).
    pub fn is_waiting_for_key(&self) -> (w: bool)
        ensures
            self@.wf(),
            w == self@.waiting_on_key,
    {
        proof {
            use_type_invariant(self);
        }
        self.waiting_on_key
    }

    /// The opcode at `pc`.
    fn fetch(&self) -> (op: u16)
        requires
            self@.wf(),
            self@.pc + 1 < MEMORY_SIZE,
        ensures
            op == opcode_at(self@.memory, self@.pc as int),
    {
        let hi = self.memory[self.pc as usize];
        let lo = self.memory[self.pc as usize + 1];
        let op: u16 = ((hi as u16) << 8) | (lo as u16);
        assert(op == hi as u16 * 256 + lo as u16) by (bit_vector)
            requires
                op == ((hi as u16) << 8) | (lo as u16),
        ;
        op
    }

    /// Whether the next `emulate` stays within the machine's bounds: see
    /// `step_in_bounds`.
    pub fn can_emulate(&self) -> (b: bool)
        ensures
            self@.wf(),
            b == step_in_bounds(self@),
    {
        proof {
            use_type_invariant(self);
        }
        if self.waiting_on_key {
            return true;
        }
        if self.pc as usize + 1 >= MEMORY_SIZE {
            return false;
        }
        let opcode = self.fetch();
        proof {
            lemma_opcode_fields(opcode);
        }
        let x = ((opcode >> 8) & 0xF) as usize;
        let n = opcode & 0xF;
        let nn = (opcode & 0xFF) as u8;
        let vx = self.registers[x];
        let group = opcode >> 12;
        let i = self.index_register as usize;
        if group == 0x2 {
            self.sp < 16
        } else if group == 0xD {
            n == 0 || i + n as usize <= MEMORY_SIZE
        } else if group == 0xF {
            if nn == 0x1E {
                i + vx as usize <= 0xFFFF
            } else if nn == 0x29 {
                vx as usize * 5 <= 0xFF
            } else if nn == 0x33 {
                i + 2 < MEMORY_SIZE
            } else if nn == 0x55 || nn == 0x65 {
                i + x + 1 <= MEMORY_SIZE
            } else {
                true
            }
        } else {
            true
        }
    }

    /// Carries out one step, with `random_byte` as the byte that `CXNN` masks:
    /// see `step`.
    pub fn emulate_with(&mut self, random_byte: u8) -> (outcome: StepOutcome)
        requires
            step_in_bounds(old(self)@),
        ensures
            final(self)@ == step(old(self)@, random_byte).0,
            outcome == step(old(self)@, random_byte).1,
            final(self)@.wf(),
    {
        proof {
            use_type_invariant(&*self);
        }
        if self.waiting_on_key {
            return StepOutcome::Waiting;
        }
        let opcode = self.fetch();
        proof {
            lemma_opcode_fields(opcode);
        }
        self.pc = self.pc + 2;
        let group = opcode >> 12;
        if group == 0x8 {
            self.execute_arithmetic(opcode)
        } else if group == 0xD {
            let x = ((opcode >> 8) & 0xF) as usize;
            let y = ((opcode >> 4) & 0xF) as usize;
            let vx = self.registers[x];
            let vy = self.registers[y];
            self.draw_sprite(vx, vy, opcode & 0xF);
            StepOutcome::Executed
        } else if group == 0xE || group == 0xF {
            self.execute_misc(opcode)
        } else {
            self.execute_flow(opcode, random_byte)
        }
    }

    /// Groups `0` to `7` and `9` to `C`: screen clearing, jumps, calls,
    /// skips, register loads and the random byte.
    #[verifier::rlimit(40)]
    fn execute_flow(&mut self, opcode: u16, random_byte: u8) -> (outcome: StepOutcome)
        requires
            old(self)@.wf(),
            op_in_bounds(old(self)@, opcode),
            old(self)@.pc <= MEMORY_SIZE,
            op_group(opcode) != 0x8,
            op_group(opcode) != 0xD,
            op_group(opcode) != 0xE,
            op_group(opcode) != 0xF,
        ensures
            final(self)@ == execute(old(self)@, opcode, random_byte).0,
            outcome == execute(old(self)@, opcode, random_byte).1,
            final(self)@.wf(),
    {
        let group = opcode >> 12;
        proof {
            lemma_opcode_fields(opcode);
        }
        if group == 0x0 {
            self.execute_system(opcode)
        } else if group == 0x1 || group == 0x2 || group == 0xB {
            self.execute_jump(opcode);
            StepOutcome::Executed
        } else if group == 0x3 || group == 0x4 || group == 0x5 || group == 0x9 {
            self.execute_skip(opcode);
            StepOutcome::Executed
        } else {
            self.execute_load(opcode, random_byte);
            StepOutcome::Executed
        }
    }

    /// Group `0`: `00E0` clears the screen, `00EE` returns from a subroutine.
    #[verifier::rlimit(40)]
    fn execute_system(&mut self, opcode: u16) -> (outcome: StepOutcome)
        requires
            old(self)@.wf(),
            op_group(opcode) == 0x0,
        ensures
            final(self)@ == execute(old(self)@, opcode, 0).0,
            outcome == execute(old(self)@, opcode, 0).1,
            final(self)@.wf(),
    {
        proof {
            lemma_opcode_fields(opcode);
        }
        let nn = (opcode & 0xFF) as u8;
        if nn == 0xE0 {
            self.screen = [0u8; 2048];
            assert(self@.screen =~= Seq::new(PIXELS as nat, |i: int| 0u8));
        } else if nn == 0xEE {
            if self.sp > 0 {
                let top = self.sp - 1;
                self.pc = self.stack[top];
                self.stack[top] = 0;
                self.sp = top;
            }
        } else {
            return StepOutcome::UnknownOpcode(opcode);
        }
        StepOutcome::Executed
    }

    /// `1NNN` jumps, `2NNN` calls, `BNNN` jumps to `NNN + V0`.
    #[verifier::rlimit(40)]
    fn execute_jump(&mut self, opcode: u16)
        requires
            old(self)@.wf(),
            op_in_bounds(old(self)@, opcode),
            op_group(opcode) == 0x1 || op_group(opcode) == 0x2 || op_group(opcode) == 0xB,
        ensures
            final(self)@ == execute(old(self)@, opcode, 0).0,
            execute(old(self)@, opcode, 0).1 == StepOutcome::Executed,
            final(self)@.wf(),
    {
        proof {
            lemma_opcode_fields(opcode);
        }
        let nnn = opcode & 0xFFF;
        let group = opcode >> 12;
        if group == 0x1 {
            self.pc = nnn;
        } else if group == 0x2 {
            self.sp = self.sp + 1;
            self.stack[self.sp - 1] = self.pc;
            self.pc = nnn;
        } else {
            self.pc = nnn + self.registers[0] as u16;
        }
    }

    /// `3XNN`, `4XNN`, `5XY0` and `9XY0`: skip the next instruction on a comparison.
    #[verifier::rlimit(40)]
    fn execute_skip(&mut self, opcode: u16)
        requires
            old(self)@.wf(),
            old(self)@.pc <= MEMORY_SIZE,
            op_group(opcode) == 0x3 || op_group(opcode) == 0x4 || op_group(opcode) == 0x5
                || op_group(opcode) == 0x9,
        ensures
            final(self)@ == execute(old(self)@, opcode, 0).0,
            execute(old(self)@, opcode, 0).1 == StepOutcome::Executed,
            final(self)@.wf(),
    {
        proof {
            lemma_opcode_fields(opcode);
        }
        let x = ((opcode >> 8) & 0xF) as usize;
        let y = ((opcode >> 4) & 0xF) as usize;
        let nn = (opcode & 0xFF) as u8;
        let vx = self.registers[x];
        let vy = self.registers[y];
        let group = opcode >> 12;
        let skip = if group == 0x3 {
            vx == nn
        } else if group == 0x4 {
            vx != nn
        } else if group == 0x5 {
            vx == vy
        } else {
            vx != vy
        };
        if skip {
            self.pc = self.pc + 2;
        }
    }

    /// `6XNN`, `7XNN`, `ANNN` and `CXNN`: loads into `VX` or `I`.
    #[verifier::rlimit(40)]
    fn execute_load(&mut self, opcode: u16, random_byte: u8)
        requires
            old(self)@.wf(),
            op_group(opcode) == 0x6 || op_group(opcode) == 0x7 || op_group(opcode) == 0xA
                || op_group(opcode) == 0xC,
        ensures
            final(self)@ == execute(old(self)@, opcode, random_byte).0,
            execute(old(self)@, opcode, random_byte).1 == StepOutcome::Executed,
            final(self)@.wf(),
    {
        proof {
            lemma_opcode_fields(opcode);
        }
        let x = ((opcode >> 8) & 0xF) as usize;
        let nn = (opcode & 0xFF) as u8;
        let nnn = opcode & 0xFFF;
        let vx = self.registers[x];
        let group = opcode >> 12;
        if group == 0x6 {
            self.registers[x] = nn;
        } else if group == 0x7 {
            self.registers[x] = vx.wrapping_add(nn);
        } else if group == 0xA {
            self.index_register = nnn;
        } else {
            self.registers[x] = random_byte & nn;
        }
    }

    /// Group `8`: register-to-register arithmetic and logic.
    #[verifier::rlimit(40)]
    fn execute_arithmetic(&mut self, opcode: u16) -> (outcome: StepOutcome)
        requires
            old(self)@.wf(),
            op_group(opcode) == 0x8,
        ensures
            final(self)@ == execute(old(self)@, opcode, 0).0,
            outcome == execute(old(self)@, opcode, 0).1,
            final(self)@.wf(),
    {
        proof {
            lemma_opcode_fields(opcode);
        }
        let x = ((opcode >> 8) & 0xF) as usize;
        let y = ((opcode >> 4) & 0xF) as usize;
        let n = opcode & 0xF;
        let vx = self.registers[x];
        let vy = self.registers[y];
        proof {
            lemma_byte_shifts(vx);
        }
        match n {
            0x0 => {
                self.registers[x] = vy;
            },
            0x1 => {
                self.registers[x] = vx | vy;
            },
            0x2 => {
                self.registers[x] = vx & vy;
            },
            0x3 => {
                self.registers[x] = vx ^ vy;
            },
            0x4 => {
                let result = vx.wrapping_add(vy);
                let carry: u8 = if vx as u16 + vy as u16 > 0xFF {
                    1
                } else {
                    0
                };
                self.registers[x] = result;
                self.registers[0xF] = carry;
            },
            0x5 => {
                let result = vx.wrapping_sub(vy);
                let no_borrow: u8 = if vx >= vy {
                    1
                } else {
                    0
                };
                self.registers[x] = result;
                self.registers[0xF] = no_borrow;
            },
            0x6 => {
                self.registers[x] = vx >> 1;
                self.registers[0xF] = vx & 1;
            },
            0x7 => {
                let result = vy.wrapping_sub(vx);
                let no_borrow: u8 = if vy >= vx {
                    1
                } else {
                    0
                };
                self.registers[x] = result;
                self.registers[0xF] = no_borrow;
            },
            0xE => {
                self.registers[x] = vx << 1;
                self.registers[0xF] = vx >> 7;
            },
            _ => {
                return StepOutcome::UnknownOpcode(opcode);
            },
        }
        StepOutcome::Executed
    }

    /// Groups `E` and `F`: keys, timers, the index register, BCD and
    /// register dumps and loads.
    #[verifier::rlimit(40)]
    fn execute_misc(&mut self, opcode: u16) -> (outcome: StepOutcome)
        requires
            old(self)@.wf(),
            op_in_bounds(old(self)@, opcode),
            old(self)@.pc <= MEMORY_SIZE,
            op_group(opcode) == 0xE || op_group(opcode) == 0xF,
        ensures
            final(self)@ == execute(old(self)@, opcode, 0).0,
            outcome == execute(old(self)@, opcode, 0).1,
            final(self)@.wf(),
    {
        proof {
            lemma_opcode_fields(opcode);
        }
        let x = ((opcode >> 8) & 0xF) as usize;
        let nn = (opcode & 0xFF) as u8;
        let vx = self.registers[x];
        let group = opcode >> 12;
        proof {
            lemma_byte_shifts(vx);
        }
        let ghost s = self@;
        if group == 0xE {
            let key = vx & 0xF;
            if nn == 0x9E {
                if self.keys[key as usize] {
                    self.pc = self.pc + 2;
                }
            } else if nn == 0xA1 {
                if !self.keys[key as usize] {
                    self.pc = self.pc + 2;
                }
            } else {
                return StepOutcome::UnknownOpcode(opcode);
            }
            return StepOutcome::Executed;
        }
        let i = self.index_register as usize;
        match nn {
            0x07 => {
                self.registers[x] = self.delay_timer;
            },
            0x0A => {
                self.waiting_on_key = true;
                self.key_register = x;
            },
            0x15 => {
                self.delay_timer = vx;
            },
            0x18 => {
                self.sound_timer = vx;
            },
            0x1E => {
                self.index_register = self.index_register + vx as u16;
            },
            0x29 => {
                let address = FONT_START + (vx * 5) as usize;
                self.index_register = address as u16;
            },
            0x33 => {
                self.memory[i] = vx / 100;
                self.memory[i + 1] = (vx / 10) % 10;
                self.memory[i + 2] = vx % 10;
            },
            0x55 => {
                let mut j: usize = 0;
                while j <= x
                    invariant
                        s.wf(),
                        x < 16,
                        i == s.index_register,
                        i + x + 1 <= MEMORY_SIZE,
                        j <= x + 1,
                        self@ == (Chip8View { memory: self@.memory, ..s }),
                        self@.memory.len() == MEMORY_SIZE,
                        forall|m: int|
                            0 <= m < MEMORY_SIZE ==> #[trigger] self@.memory[m] == if i <= m < i
                                + j {
                                s.registers[m - i]
                            } else {
                                s.memory[m]
                            },
                    decreases x + 1 - j,
                {
                    self.memory[i + j] = self.registers[j];
                    j = j + 1;
                }
                assert(self@.memory =~= execute(s, opcode, 0).0.memory);
            },
            0x65 => {
                let mut j: usize = 0;
                while j <= x
                    invariant
                        s.wf(),
                        x < 16,
                        i == s.index_register,
                        i + x + 1 <= MEMORY_SIZE,
                        j <= x + 1,
                        self@ == (Chip8View { registers: self@.registers, ..s }),
                        self@.registers.len() == 16,
                        forall|m: int|
                            0 <= m < 16 ==> #[trigger] self@.registers[m] == if m < j {
                                s.memory[i + m]
                            } else {
                                s.registers[m]
                            },
                    decreases x + 1 - j,
                {
                    self.registers[j] = self.memory[i + j];
                    j = j + 1;
                }
                assert(self@.registers =~= execute(s, opcode, 0).0.registers);
            },
            _ => {
                return StepOutcome::UnknownOpcode(opcode);
            },
        }
        StepOutcome::Executed
    }

    /// `DXYN`: XORs the `n`-byte sprite at `I` onto the screen at
    /// `(vx % 64, vy % 32)`, clipped at the edges; `VF` is 1 exactly when a lit
    /// pixel was turned off.
    fn draw_sprite(&mut self, vx: u8, vy: u8, n: u16)
        requires
            old(self)@.wf(),
            n < 16,
            n == 0 || old(self)@.index_register + n <= MEMORY_SIZE,
        ensures
            final(self)@ == draw(old(self)@, vx, vy, n as int),
            final(self)@.wf(),
    {
        self.registers[0xF] = 0;
        let ghost base = self@;
        let ghost s0 = old(self)@;
        let start = self.index_register as usize;
        let rows = n as usize;
        let mut r: usize = 0;
        while r < rows
            invariant
                base.wf(),
                s0.wf(),
                base == s0.set_reg(15, 0u8),
                start == s0.index_register,
                rows == n,
                n < 16,
                rows == 0 || start + rows <= MEMORY_SIZE,
                r <= rows,
                self@ == (Chip8View {
                    screen: draw_screen(
                        s0.screen,
                        s0.memory,
                        start as int,
                        vx,
                        vy,
                        rows as int,
                        r * 8,
                    ),
                    registers: s0.registers.update(
                        15,
                        if collides(s0.screen, s0.memory, start as int, vx, vy, rows as int, r * 8) {
                            1u8
                        } else {
                            0u8
                        },
                    ),
                    ..s0
                }),
            decreases rows - r,
        {
            let byte = self.memory[start + r];
            let mut k: usize = 0;
            while k < 8
                invariant
                    s0.wf(),
                    start == s0.index_register,
                    rows == n,
                    r < rows,
                    start + rows <= MEMORY_SIZE,
                    byte == s0.memory[start + r],
                    k <= 8,
                    self@ == (Chip8View {
                        screen: draw_screen(
                            s0.screen,
                            s0.memory,
                            start as int,
                            vx,
                            vy,
                            rows as int,
                            r * 8 + k,
                        ),
                        registers: s0.registers.update(
                            15,
                            if collides(
                                s0.screen,
                                s0.memory,
                                start as int,
                                vx,
                                vy,
                                rows as int,
                                r * 8 + k,
                            ) {
                                1u8
                            } else {
                                0u8
                            },
                        ),
                        ..s0
                    }),
                decreases 8 - k,
            {
                let col = (7 - k) as u8;
                let bit = (byte >> col) & 1;
                proof {
                    lemma_draw_cell(
                        s0.screen,
                        s0.memory,
                        start as int,
                        vx,
                        vy,
                        rows as int,
                        r as int,
                        k as int,
                    );
                }
                self.set_pixel((vx as usize % 64) + k, (vy as usize % 32) + r, bit);
                k = k + 1;
            }
            r = r + 1;
        }
    }
}

/// A byte from `rand`'s thread-local generator (`rand::rng()` and
/// `RngExt::random::<u8>()`). Nothing is claimed of the byte: any value may
/// come back. The generator panics only if the operating system cannot seed it.
#[verifier::external_body]
fn random_byte() -> u8 {
    rand::rng().random::<u8>()
}

/// How the fields of an opcode come out of shifts and masks.
pub proof fn lemma_opcode_fields(op: u16)
    by (bit_vector)
    ensures
        op >> 12 == op / 4096,
        (op >> 8) & 0xF == (op / 256) % 16,
        (op >> 4) & 0xF == (op / 16) % 16,
        op & 0xF == op % 16,
        op & 0xFF == op % 256,
        op & 0xFFF == op % 4096,
{
}

/// How the shifts and masks of a byte read arithmetically.
pub proof fn lemma_byte_shifts(b: u8)
    by (bit_vector)
    ensures
        b >> 1 == b / 2,
        b & 1 == b % 2,
        b >> 7 == b / 128,
        b << 1 == ((b * 2) % 256) as u8,
        b & 0xF == b % 16,
{
}

} // verus!
