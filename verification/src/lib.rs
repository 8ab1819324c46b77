//! A stack-based bytecode virtual machine.
//!
//! The machine owns a fixed instruction sequence, a call stack of execution
//! frames (each with its own operand stack and instruction pointer), and a
//! flat table of 65536 global variables.  It executes instructions one at a
//! time until a halt instruction is reached.

pub mod stack;
pub mod vm;
pub mod laws;
