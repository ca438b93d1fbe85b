//! A CHIP-8 virtual machine whose instruction semantics, keypad, timers and
//! display are specified over a mathematical model and verified with Verus.

pub mod font;
pub mod model;
pub mod chip8;
pub mod laws;
pub mod keypad;
pub mod display;
pub mod schedule;

pub use crate::chip8::{Chip8, LoadError, MEMORY_SIZE, PIXELS, PROGRAM_START};
pub use crate::model::StepOutcome;
pub mod instructions;
