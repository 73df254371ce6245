//! Golden-word checks for the instruction encoders: each emitted word is
//! compared against the independently assembled 32-bit value.

use rvjit_bpf::compile::JitContext;
use rvjit_bpf::rv::{enc_addi, enc_auipc, enc_jal, instr_encode, RvInstr};

#[test]
fn golden_lui() {
    let insns: [u64; 0] = [];
    let mut ctx = JitContext::new(&insns);
    ctx.emit_lui(15, 0x12);
    assert_eq!(ctx.get_rv_code()[0], 0x000127b7);
    assert_eq!(instr_encode(RvInstr::Lui(15, 0x12)), 0x000127b7);
}

#[test]
fn golden_add_sub_subw() {
    let insns: [u64; 0] = [];
    let mut ctx = JitContext::new(&insns);
    ctx.emit_add(10, 10, 6);
    ctx.emit_sub(10, 10, 6);
    ctx.emit_subw(10, 10, 6);
    let code = ctx.get_rv_code();
    assert_eq!(code[0], 0x00650533);
    assert_eq!(code[1], 0x40650533);
    assert_eq!(code[2], 0x4065053b);
}

#[test]
fn golden_addi_addiw() {
    let insns: [u64; 0] = [];
    let mut ctx = JitContext::new(&insns);
    ctx.emit_addi(10, 0, 5);
    ctx.emit_addi(2, 2, -56);
    ctx.emit_addiw(10, 10, 0x345);
    let code = ctx.get_rv_code();
    assert_eq!(code[0], 0x00500513);
    assert_eq!(code[1], 0xfc810113);
    assert_eq!(code[2], 0x3455051b);
}

#[test]
fn golden_shifts() {
    let insns: [u64; 0] = [];
    let mut ctx = JitContext::new(&insns);
    ctx.emit_slli(10, 10, 32);
    ctx.emit_srli(10, 10, 32);
    let code = ctx.get_rv_code();
    assert_eq!(code[0], 0x02051513);
    assert_eq!(code[1], 0x02055513);
}

#[test]
fn golden_loads_stores() {
    let insns: [u64; 0] = [];
    let mut ctx = JitContext::new(&insns);
    ctx.emit_ld(7, 6, 0);
    ctx.emit_sd(1, 2, 0);
    ctx.emit_ld(1, 2, 0);
    let code = ctx.get_rv_code();
    assert_eq!(code[0], 0x00033383);
    assert_eq!(code[1], 0x00113023);
    assert_eq!(code[2], 0x00013083);
}

#[test]
fn golden_jumps() {
    let insns: [u64; 0] = [];
    let mut ctx = JitContext::new(&insns);
    ctx.emit_jal(0, 8);
    ctx.emit_jalr(1, 7, 0);
    ctx.emit_jalr(0, 1, 0);
    let code = ctx.get_rv_code();
    assert_eq!(code[0], 0x0080006f);
    assert_eq!(code[1], 0x000380e7);
    assert_eq!(code[2], 0x00008067);
    assert_eq!(enc_jal(0, 8), 0x0080006f);
}

#[test]
fn golden_auipc_addi_pair() {
    assert_eq!(enc_auipc(6, 0), 0x00000317);
    assert_eq!(enc_addi(6, 6, 80), 0x05030313);
}

#[test]
fn reg_names() {
    assert_eq!(rvjit_bpf::compile::rv_reg_name(0), "zero");
    assert_eq!(rvjit_bpf::compile::rv_reg_name(2), "sp");
    assert_eq!(rvjit_bpf::compile::rv_reg_name(6), "t1");
    assert_eq!(rvjit_bpf::compile::rv_reg_name(15), "a5");
    assert_eq!(rvjit_bpf::compile::rv_reg_name(21), "s5");
    assert_eq!(rvjit_bpf::compile::rv_reg_name(31), "t6");
}

#[test]
fn range_predicates() {
    assert!(rvjit_bpf::compile::is_in_i32_range(0));
    assert!(rvjit_bpf::compile::is_in_i32_range(-0x8000_0000));
    assert!(rvjit_bpf::compile::is_in_i32_range(0x7fff_ffff));
    assert!(!rvjit_bpf::compile::is_in_i32_range(0x8000_0000));
    assert!(!rvjit_bpf::compile::is_in_i32_range(-0x8000_0001));
    assert!(rvjit_bpf::compile::is_in_i12_range(-2048));
    assert!(rvjit_bpf::compile::is_in_i12_range(2047));
    assert!(!rvjit_bpf::compile::is_in_i12_range(2048));
    assert!(!rvjit_bpf::compile::is_in_i12_range(-2049));
}

#[test]
fn comment_stream_is_a_side_channel() {
    let insns: [u64; 0] = [];
    let mut ctx = JitContext::new(&insns);
    ctx.comment(String::from("a note"));
    ctx.emit_add(10, 10, 6);
    assert_eq!(ctx.get_rv_source().len(), 1);
    assert_eq!(ctx.get_rv_source()[0], "a note");
    assert_eq!(ctx.get_rv_code().len(), 1);
}
