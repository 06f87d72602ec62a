//! Execution core of a register-based bytecode virtual machine.

pub mod arith;
pub mod bits;
pub mod bytes;
pub mod digest;
pub mod instr;
pub mod interp;
pub mod laws;
pub mod shift;
pub mod stack;
