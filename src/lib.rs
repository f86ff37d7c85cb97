//! A CHIP-8 virtual machine: instruction decoding, an execution engine with
//! its display, timers and keypad, a disassembler and a two-pass assembler.

pub mod assembler;
pub mod carry_borrow;
pub mod compiler;
pub mod disassemble;
pub mod display;
pub mod hilo;
pub mod insts;
pub mod machine;
pub mod timers;
