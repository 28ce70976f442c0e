//! A verified simulator for the Small-Scale Experimental Machine: a
//! single-accumulator stored-program computer with a 32-word memory, a
//! 3-bit opcode set, and a program counter that wraps modulo the memory
//! size.

pub mod opcode;
pub mod simulator;
pub mod store;
pub mod text;
pub mod word;
