//! Whole-program scenarios: translation of small programs, exit and call
//! relocation, helper-table layout, and the PcMap.

use rvjit_bpf::compile::{compile, JitContext};
use rvjit_bpf::rv::{enc_addi, enc_auipc, enc_jal, instr_encode, rv_run_exec, RvInstr};

/// Pack one 64-bit eBPF instruction word.
fn insn(op: u8, dst: u8, src: u8, off: i16, imm: i32) -> u64 {
    (op as u64)
        | ((dst as u64) << 8)
        | ((src as u64) << 12)
        | (((off as u16) as u64) << 16)
        | (((imm as u32) as u64) << 32)
}

const MOV64_K: u8 = 0xb7;
const ADD64_K: u8 = 0x07;
const LD_DW: u8 = 0x18;
const CALL: u8 = 0x85;
const EXIT: u8 = 0x95;

/// The first two prologue words: `addi sp, sp, -56` and `sd ra, 0(sp)`.
fn check_prologue(code: &[u32]) {
    assert_eq!(code[0], 0xfc810113);
    assert_eq!(code[1], 0x00113023);
}

#[test]
fn mov_add_exit() {
    // MOV64 R1, 5; ADD64 R1, R1, 3; EXIT
    let prog = [
        insn(MOV64_K, 1, 0, 0, 5),
        insn(ADD64_K, 1, 0, 0, 3),
        insn(EXIT, 0, 0, 0, 0),
    ];
    let helpers: [u64; 0] = [];
    let mut ctx = JitContext::new(&prog);
    compile(&mut ctx, &helpers);
    let code = ctx.get_rv_code();
    check_prologue(code);
    // Body: addi a0, x0, 5; addi t1, x0, 3; add a0, a0, t1; patched branch.
    assert_eq!(code[8], instr_encode(RvInstr::Addi(10, 0, 5)));
    assert_eq!(code[9], instr_encode(RvInstr::Addi(6, 0, 3)));
    assert_eq!(code[10], instr_encode(RvInstr::Add(10, 10, 6)));
    // The exit branch at byte 44 targets the epilogue at byte 48.
    assert_eq!(code[11], enc_jal(0, 4));
    // Executing the translated body leaves 5 + 3 = 8 in the accumulator.
    let body = vec![
        RvInstr::Addi(10, 0, 5),
        RvInstr::Addi(6, 0, 3),
        RvInstr::Add(10, 10, 6),
    ];
    let mut regs: Vec<u64> = vec![0; 32];
    rv_run_exec(&mut regs, &body);
    assert_eq!(regs[10], 8);
}

#[test]
fn ld_imm_dw_pair() {
    // LD_IMM_DW R0, 0x1_0000_0001 split across two slots, then EXIT.
    let prog = [
        insn(LD_DW, 0, 0, 0, 1),
        insn(0, 0, 0, 0, 1),
        insn(EXIT, 0, 0, 0, 0),
    ];
    let helpers: [u64; 0] = [];
    let mut ctx = JitContext::new(&prog);
    compile(&mut ctx, &helpers);
    let code = ctx.get_rv_code();
    // R0 lives in a5: addi a5, x0, 1; slli a5, a5, 32; addi a5, a5, 1.
    let body = vec![
        RvInstr::Addi(15, 0, 1),
        RvInstr::Slli(15, 15, 32),
        RvInstr::Addi(15, 15, 1),
    ];
    for (k, &i) in body.iter().enumerate() {
        assert_eq!(code[8 + k], instr_encode(i));
    }
    let mut regs: Vec<u64> = vec![0; 32];
    rv_run_exec(&mut regs, &body);
    assert_eq!(regs[15], 0x1_0000_0001);
    // Exactly one PcMap entry for the pair, anchored at the first slot's
    // index, plus the EXIT's own entry.
    let pc_map = ctx.get_pc_map();
    assert_eq!(pc_map.len(), 2);
    assert_eq!(pc_map[0], (0, 32));
    assert_eq!(pc_map[1], (2, 44));
    assert_eq!(pc_map.iter().filter(|e| e.0 == 0).count(), 1);
}

#[test]
fn ld_imm_dw_negative_low_half() {
    // A low half with its top bit set is zero-extended: low -1 with high 0
    // yields 0x0000_0000_ffff_ffff, not all ones.
    let prog = [insn(LD_DW, 0, 0, 0, -1), insn(0, 0, 0, 0, 0)];
    let helpers: [u64; 0] = [];
    let mut ctx = JitContext::new(&prog);
    compile(&mut ctx, &helpers);
    let code = ctx.get_rv_code();
    // Materializing 0xffff_ffff into a5: addi a5, x0, 1; slli a5, a5, 32;
    // addi a5, a5, -1.
    let body = vec![
        RvInstr::Addi(15, 0, 1),
        RvInstr::Slli(15, 15, 32),
        RvInstr::Addi(15, 15, -1),
    ];
    for (k, &i) in body.iter().enumerate() {
        assert_eq!(code[8 + k], instr_encode(i));
    }
    let mut regs: Vec<u64> = vec![0; 32];
    rv_run_exec(&mut regs, &body);
    assert_eq!(regs[15], 0x0000_0000_ffff_ffff);
}

#[test]
fn ld_imm_dw_negative_low_high_set() {
    // Low -1 with high 1 combines to 0x1_ffff_ffff.
    let prog = [insn(LD_DW, 1, 0, 0, -1), insn(0, 0, 0, 0, 1)];
    let helpers: [u64; 0] = [];
    let mut ctx = JitContext::new(&prog);
    compile(&mut ctx, &helpers);
    let code = ctx.get_rv_code();
    // Materializing 0x1_ffff_ffff into a0: addi a0, x0, 1; slli a0, a0, 33;
    // addi a0, a0, -1.
    let body = vec![
        RvInstr::Addi(10, 0, 1),
        RvInstr::Slli(10, 10, 33),
        RvInstr::Addi(10, 10, -1),
    ];
    for (k, &i) in body.iter().enumerate() {
        assert_eq!(code[8 + k], instr_encode(i));
    }
    let mut regs: Vec<u64> = vec![0; 32];
    rv_run_exec(&mut regs, &body);
    assert_eq!(regs[10], 0x1_ffff_ffff);
}

#[test]
fn call_reaches_helper_entry() {
    // CALL 2 with a four-entry helper table.
    let prog = [insn(CALL, 0, 0, 0, 2), insn(EXIT, 0, 0, 0, 0)];
    let helpers: [u64; 4] = [0xdead, 0xbeef, 0xbad, 0xc0de];
    let mut ctx = JitContext::new(&prog);
    compile(&mut ctx, &helpers);
    let code = ctx.get_rv_code();
    // Body: call words at bytes 32..56, exit placeholder at 56; epilogue at
    // 60; code ends at byte 100; the table starts at the next 16-byte
    // boundary, byte 112.
    let table = 112usize;
    assert_eq!(table % 16, 0);
    assert_eq!(code.len() * 4, table + 8 * helpers.len());
    // The patched pair at the call site (byte 32): auipc t1, 0 and
    // addi t1, t1, 80, so t1 = 32 + 0 + 80 = 112, the table start.
    assert_eq!(code[8], enc_auipc(6, 0));
    assert_eq!(code[9], enc_addi(6, 6, 80));
    let reconstructed = 32 + 0 + 80;
    assert_eq!(reconstructed, table);
    // The entry advance is 8 * 2 = 16 bytes: the load reads bytes 128..136,
    // which hold helpers[2] in little-endian words.
    let entry = (reconstructed + 16) / 4;
    assert_eq!(code[entry], 0xbad);
    assert_eq!(code[entry + 1], 0);
    // The exit site at byte 56 targets the epilogue at byte 60.
    assert_eq!(code[14], enc_jal(0, 4));
}

#[test]
fn all_exits_share_one_target() {
    let prog = [
        insn(EXIT, 0, 0, 0, 0),
        insn(MOV64_K, 1, 0, 0, 7),
        insn(EXIT, 0, 0, 0, 0),
    ];
    let helpers: [u64; 0] = [];
    let mut ctx = JitContext::new(&prog);
    compile(&mut ctx, &helpers);
    let code = ctx.get_rv_code();
    // Exit sites at bytes 32 and 40; epilogue begins at byte 44.
    assert_eq!(code[8], enc_jal(0, 12));
    assert_eq!(code[10], enc_jal(0, 4));
    assert_eq!(32 + 12, 44);
    assert_eq!(40 + 4, 44);
}

#[test]
fn helper_table_layout() {
    let prog = [insn(EXIT, 0, 0, 0, 0)];
    let helpers: [u64; 1] = [0x1122_3344_5566_7788];
    let mut ctx = JitContext::new(&prog);
    compile(&mut ctx, &helpers);
    let code = ctx.get_rv_code();
    // Code ends at byte (8 + 1 + 10) * 4 = 76; the table starts at 80.
    let table = 80usize;
    assert_eq!(table % 16, 0);
    assert_eq!(code.len() * 4, table + 8);
    // One padding word of zeros between the code and the table.
    assert_eq!(code[19], 0);
    // The entry is stored as two little-endian words.
    assert_eq!(code[table / 4], 0x5566_7788);
    assert_eq!(code[table / 4 + 1], 0x1122_3344);
}

#[test]
fn register_map_through_mov() {
    // MOV64 into each mapped register: R0..=R9 and the frame pointer land
    // in a5, a0..a4, s1..s4, s5.
    let rv_of = [15u8, 10, 11, 12, 13, 14, 9, 18, 19, 20, 21];
    for (bpf, &rv) in rv_of.iter().enumerate() {
        let prog = [insn(MOV64_K, bpf as u8, 0, 0, 9)];
        let helpers: [u64; 0] = [];
        let mut ctx = JitContext::new(&prog);
        compile(&mut ctx, &helpers);
        assert_eq!(ctx.get_rv_code()[8], instr_encode(RvInstr::Addi(rv, 0, 9)));
    }
}

#[test]
fn alu32_zero_extends() {
    // 32-bit MOV of -1: materialize, then clear the upper half.
    const MOV32_K: u8 = 0xb4;
    let prog = [insn(MOV32_K, 1, 0, 0, -1)];
    let helpers: [u64; 0] = [];
    let mut ctx = JitContext::new(&prog);
    compile(&mut ctx, &helpers);
    let code = ctx.get_rv_code();
    let body = vec![
        RvInstr::Addi(10, 0, -1),
        RvInstr::Slli(10, 10, 32),
        RvInstr::Srli(10, 10, 32),
    ];
    for (k, &i) in body.iter().enumerate() {
        assert_eq!(code[8 + k], instr_encode(i));
    }
    let mut regs: Vec<u64> = vec![0; 32];
    rv_run_exec(&mut regs, &body);
    assert_eq!(regs[10], 0xffff_ffff);
}

#[test]
fn sub_paths() {
    // 64-bit subtract-immediate goes through the scratch register; 32-bit
    // register subtract uses `subw` and zero-extends.
    const SUB64_K: u8 = 0x17;
    const SUB32_X: u8 = 0x1c;
    let prog = [
        insn(MOV64_K, 1, 0, 0, 5),
        insn(MOV64_K, 2, 0, 0, 9),
        insn(SUB64_K, 1, 0, 0, 3),
        insn(SUB32_X, 2, 1, 0, 0),
    ];
    let helpers: [u64; 0] = [];
    let mut ctx = JitContext::new(&prog);
    compile(&mut ctx, &helpers);
    let code = ctx.get_rv_code();
    let body = vec![
        RvInstr::Addi(10, 0, 5),
        RvInstr::Addi(11, 0, 9),
        RvInstr::Addi(6, 0, 3),
        RvInstr::Sub(10, 10, 6),
        RvInstr::Subw(11, 11, 10),
        RvInstr::Slli(11, 11, 32),
        RvInstr::Srli(11, 11, 32),
    ];
    for (k, &i) in body.iter().enumerate() {
        assert_eq!(code[8 + k], instr_encode(i));
    }
    let mut regs: Vec<u64> = vec![0; 32];
    rv_run_exec(&mut regs, &body);
    assert_eq!(regs[10], 2);
    assert_eq!(regs[11], 7);
}

#[test]
fn unimplemented_opcode_emits_nothing() {
    // An opcode outside the translated subset produces no code words but
    // still gets its PcMap entry.
    let prog = [
        insn(MOV64_K, 1, 0, 0, 1),
        insn(0x2d, 1, 2, 0, 0),
        insn(EXIT, 0, 0, 0, 0),
    ];
    let helpers: [u64; 0] = [];
    let mut ctx = JitContext::new(&prog);
    compile(&mut ctx, &helpers);
    let code = ctx.get_rv_code();
    // Body: one materialization word and one exit placeholder.
    assert_eq!(code[8], instr_encode(RvInstr::Addi(10, 0, 1)));
    assert_eq!(code[9], enc_jal(0, 4));
    let pc_map = ctx.get_pc_map();
    assert_eq!(pc_map.len(), 3);
    assert_eq!(pc_map[0], (0, 32));
    assert_eq!(pc_map[1], (1, 36));
    assert_eq!(pc_map[2], (2, 36));
}

#[test]
fn sum() {
    // A small summation program in the spirit of the original sample:
    // R0 = 0; R1 = 1; R0 += R1; R1 += 2; R0 += R1; EXIT.
    const ADD64_X: u8 = 0x0f;
    let prog = [
        insn(MOV64_K, 0, 0, 0, 0),
        insn(MOV64_K, 1, 0, 0, 1),
        insn(ADD64_X, 0, 1, 0, 0),
        insn(ADD64_K, 1, 0, 0, 2),
        insn(ADD64_X, 0, 1, 0, 0),
        insn(EXIT, 0, 0, 0, 0),
    ];
    let helpers: [u64; 4] = [0xdead, 0xbeef, 0xbad, 0xc0de];
    let mut ctx = JitContext::new(&prog);
    compile(&mut ctx, &helpers);
    let code = ctx.get_rv_code();
    check_prologue(code);
    // Executing the body leaves 0 + 1 + (1 + 2) = 4 in R0 (a5).
    let body = vec![
        RvInstr::Addi(15, 0, 0),
        RvInstr::Addi(10, 0, 1),
        RvInstr::Add(15, 15, 10),
        RvInstr::Addi(6, 0, 2),
        RvInstr::Add(10, 10, 6),
        RvInstr::Add(15, 15, 10),
    ];
    for (k, &i) in body.iter().enumerate() {
        assert_eq!(code[8 + k], instr_encode(i));
    }
    let mut regs: Vec<u64> = vec![0; 32];
    rv_run_exec(&mut regs, &body);
    assert_eq!(regs[15], 4);
    // The table lands on a 16-byte boundary.
    assert_eq!((code.len() * 4 - 8 * helpers.len()) % 16, 0);
}

#[test]
fn compile_sum_test() {
    // The driver over the same program, checked end to end: prologue,
    // translated body, epilogue, aligned table holding the helper
    // addresses.
    const ADD64_X: u8 = 0x0f;
    let prog = [
        insn(MOV64_K, 0, 0, 0, 0),
        insn(MOV64_K, 1, 0, 0, 1),
        insn(ADD64_X, 0, 1, 0, 0),
        insn(ADD64_K, 1, 0, 0, 2),
        insn(ADD64_X, 0, 1, 0, 0),
        insn(EXIT, 0, 0, 0, 0),
    ];
    let helpers: [u64; 4] = [0xdead, 0xbeef, 0xbad, 0xc0de];
    let mut ctx = JitContext::new(&prog);
    compile(&mut ctx, &helpers);
    let code = ctx.get_rv_code();
    // 8 prologue + 7 body + 10 epilogue = 25 words, ending at byte 100;
    // table at 112, four 8-byte entries.
    assert_eq!(code.len() * 4, 112 + 32);
    let t = 112 / 4;
    assert_eq!(code[t], 0xdead);
    assert_eq!(code[t + 2], 0xbeef);
    assert_eq!(code[t + 4], 0xbad);
    assert_eq!(code[t + 6], 0xc0de);
    assert_eq!(code[t + 1], 0);
    // The single exit branch at byte 56 targets the epilogue at byte 60.
    assert_eq!(code[14], enc_jal(0, 4));
    // The final word of the epilogue is the return.
    assert_eq!(code[24], 0x00008067);
}
