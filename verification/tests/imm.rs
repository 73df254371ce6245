//! Immediate materialization: round-trip through the architecture model,
//! and the reference instruction counts.

use rvjit_bpf::compile::JitContext;
use rvjit_bpf::rv::{instr_encode, rv_run_exec, RvInstr};

/// The reference materialization sequence, written out independently of the
/// library: biased upper part, sign-extended low 12 bits, recursion on the
/// upper part shifted by its trailing-zero count.
fn reference_seq(rd: u8, v: i64, out: &mut Vec<RvInstr>) {
    let hi = v.wrapping_add(2048) >> 12;
    let lo = ((v & 0xfff) << 52) >> 52;
    if (-(1i64 << 31)) <= v && v < (1i64 << 31) {
        if hi != 0 {
            out.push(RvInstr::Lui(rd, hi as u32));
            out.push(RvInstr::Addiw(rd, rd, lo as i32));
        } else {
            out.push(RvInstr::Addi(rd, 0, lo as i32));
        }
        return;
    }
    let shift = hi.trailing_zeros() as u8;
    reference_seq(rd, hi >> shift, out);
    out.push(RvInstr::Slli(rd, rd, shift + 12));
    if lo != 0 {
        out.push(RvInstr::Addi(rd, rd, lo as i32));
    }
}

fn check_roundtrip(v: i64) -> usize {
    let insns: [u64; 0] = [];
    let mut ctx = JitContext::new(&insns);
    ctx.emit_imm(10, v);
    let code = ctx.get_rv_code();
    let mut expected: Vec<RvInstr> = Vec::new();
    reference_seq(10, v, &mut expected);
    assert_eq!(code.len(), expected.len());
    for (k, &i) in expected.iter().enumerate() {
        assert_eq!(code[k], instr_encode(i));
    }
    let mut regs: Vec<u64> = (0..32).map(|k| 0x1000 + k as u64).collect();
    rv_run_exec(&mut regs, &expected);
    assert_eq!(regs[10], v as u64);
    for k in 0..32 {
        if k != 10 && k != 0 {
            assert_eq!(regs[k], 0x1000 + k as u64);
        }
    }
    code.len()
}

#[test]
fn imm_roundtrip_small() {
    assert_eq!(check_roundtrip(0), 1);
    assert_eq!(check_roundtrip(5), 1);
    assert_eq!(check_roundtrip(-1), 1);
    assert_eq!(check_roundtrip(2047), 1);
    assert_eq!(check_roundtrip(-2048), 1);
}

#[test]
fn imm_roundtrip_32bit() {
    assert_eq!(check_roundtrip(2048), 2);
    assert_eq!(check_roundtrip(0x12345), 2);
    assert_eq!(check_roundtrip(-0x12345678), 2);
    assert_eq!(check_roundtrip(0x7fff_ffff), 2);
    assert_eq!(check_roundtrip(-0x8000_0000), 2);
}

#[test]
fn imm_roundtrip_64bit() {
    assert_eq!(check_roundtrip(0x1_0000_0001), 3);
    check_roundtrip(0x8000_0000);
    check_roundtrip(-0x1_0000_0001);
    check_roundtrip(0x0dead_beef_1234_5678u64 as i64);
    check_roundtrip(0xdead_beef_1234_5678u64 as i64);
    check_roundtrip(i64::MAX);
    check_roundtrip(i64::MIN);
    check_roundtrip(i64::MAX - 1000);
    check_roundtrip(0x7ff8_0000_0000_0000);
}

#[test]
fn imm_count_bound() {
    let values = [
        0i64,
        1,
        -1,
        0x7fff_ffff,
        -0x8000_0000,
        0x1_0000_0001,
        i64::MAX,
        i64::MIN,
        0x5555_5555_5555_5555,
        -0x5555_5555_5555_5555,
    ];
    for &v in values.iter() {
        let n = check_roundtrip(v);
        assert!(n >= 1 && n <= 8);
        if -0x8000_0000 <= v && v <= 0x7fff_ffff {
            assert!(n <= 2);
            if -2048 <= v && v <= 2047 {
                assert_eq!(n, 1);
            }
        }
    }
}

#[test]
fn zext_idiom_idempotent() {
    let once = vec![RvInstr::Slli(10, 10, 32), RvInstr::Srli(10, 10, 32)];
    let twice = vec![
        RvInstr::Slli(10, 10, 32),
        RvInstr::Srli(10, 10, 32),
        RvInstr::Slli(10, 10, 32),
        RvInstr::Srli(10, 10, 32),
    ];
    let mut r1: Vec<u64> = (0..32).map(|k| 0xdead_beef_1234_5678 ^ k as u64).collect();
    let mut r2 = r1.clone();
    rv_run_exec(&mut r1, &once);
    rv_run_exec(&mut r2, &twice);
    assert_eq!(r1, r2);
    assert_eq!(r1[10], 0xdead_beef_1234_5678u64 as u32 as u64 ^ 10);
}
