//! A verified interpreter for a classic 8-bit virtual machine: a register
//! file, 4096 bytes of flat memory, a 16-entry call stack, a delay timer, a
//! monochrome 64x32 framebuffer with XOR sprite drawing, and a 16-key keypad.

pub mod cpu;
pub mod display;
pub mod keypad;
