//! A small just-in-time translator from eBPF bytecode to RV64 machine code.
//!
//! The translator decodes 64-bit eBPF instruction words, generates the
//! equivalent RISC-V instruction sequence (a representative ALU subset,
//! the 64-bit immediate-load pseudo-instruction, helper calls and exits),
//! and resolves forward references to the epilogue and to the appended
//! helper-address table with a two-phase emit-then-patch scheme.

pub mod compile;
pub mod consts;
pub mod materialize;
pub mod rv;
