//! A CHIP-8 interpreter core: memory, framebuffer, keypad and the
//! fetch-decode-execute state machine, with every operation specified and
//! proved against a mathematical model.

pub mod cpu;
pub mod debugger;
pub mod display;
pub mod error;
pub mod instruction;
pub mod keyboard;
pub mod laws;
pub mod memory;
