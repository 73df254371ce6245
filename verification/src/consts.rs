//! Constant data shared by the translator: eBPF opcode values and RISC-V
//! physical register numbers.

use vstd::prelude::*;

verus! {

// eBPF instruction classes (low three bits of the opcode byte).
pub const BPF_ALU64: u8 = 0x07;

// eBPF ALU opcodes, 32-bit (`ALU_*`) and 64-bit (`ALU64_*`) widths,
// with an immediate (`_K_`) or a register (`_X_`) operand.
pub const ALU_K_ADD: u8 = 0x04;
pub const ALU_X_ADD: u8 = 0x0c;
pub const ALU64_K_ADD: u8 = 0x07;
pub const ALU64_X_ADD: u8 = 0x0f;
pub const ALU_K_SUB: u8 = 0x14;
pub const ALU_X_SUB: u8 = 0x1c;
pub const ALU64_K_SUB: u8 = 0x17;
pub const ALU64_X_SUB: u8 = 0x1f;
pub const ALU_K_MOV: u8 = 0xb4;
pub const ALU_X_MOV: u8 = 0xbc;
pub const ALU64_K_MOV: u8 = 0xb7;
pub const ALU64_X_MOV: u8 = 0xbf;

// The 16-byte load-immediate pseudo-instruction and the jump-class opcodes
// handled by this translator.
pub const LD_IMM_DW: u8 = 0x18;
pub const JMP_K_CALL: u8 = 0x85;
pub const JMP_K_EXIT: u8 = 0x95;

// The eBPF virtual register file: R0..R9 and the frame pointer.
pub const BPF_MAX_REGS: usize = 11;
pub const BPF_REG_R0: u8 = 0;

// RISC-V physical register numbers (RV64 integer register file).
pub const RV_REG_ZERO: u8 = 0;
pub const RV_REG_RA: u8 = 1;
pub const RV_REG_SP: u8 = 2;
pub const RV_REG_FP: u8 = 8;
pub const RV_REG_S1: u8 = 9;
pub const RV_REG_A0: u8 = 10;
pub const RV_REG_A1: u8 = 11;
pub const RV_REG_A2: u8 = 12;
pub const RV_REG_A3: u8 = 13;
pub const RV_REG_A4: u8 = 14;
pub const RV_REG_A5: u8 = 15;
pub const RV_REG_T1: u8 = 6;
pub const RV_REG_T2: u8 = 7;
pub const RV_REG_S2: u8 = 18;
pub const RV_REG_S3: u8 = 19;
pub const RV_REG_S4: u8 = 20;
pub const RV_REG_S5: u8 = 21;

} // verus!
