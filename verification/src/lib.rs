//! A verified interpreter core for the CHIP-8 virtual machine.
//!
//! The machine state (memory, registers, stack, display, timers, key latch)
//! lives in [`chip8::Chip8`]; one fetch-decode-execute cycle is performed by
//! [`chip8::Chip8::emulate`], whose contract ties the new state to the
//! mathematical step function [`model::spec_step`]. The `laws` module states
//! and proves the headline properties of the instruction set.

pub mod chip8;
pub mod laws;
pub mod model;
