//! The immediate-materialization algorithm, as a specification, with its
//! correctness laws.
//!
//! `imm_instrs` is the reference sequence for loading a signed 64-bit
//! constant into a register: `lui`+`addiw` (or a single `addi`) for values
//! that fit in 32 bits, and otherwise a recursion that materializes the
//! upper part, shifts it into place, and adds the remaining low bits.
//! The emitter is proved to produce exactly these instructions, and the laws
//! here show that executing them against the architecture model leaves the
//! requested value in the destination register, with the reference
//! instruction counts.

use vstd::prelude::*;
use vstd::std_specs::bits::{axiom_u64_trailing_zeros, u64_trailing_zeros};

use crate::consts::RV_REG_ZERO;
use crate::rv::{instr_step, rv_get, rv_run, rv_set, sext32, RvInstr};
use crate::rv::{lemma_run_append, lemma_run_one};

verus! {

/// The value fits the signed 32-bit range.
pub open spec fn in_i32(v: i64) -> bool {
    -0x8000_0000 <= v <= 0x7fff_ffff
}

/// The value fits the signed 12-bit immediate field.
pub open spec fn in_i12(v: i32) -> bool {
    -0x800 <= v <= 0x7ff
}

/// Absolute value of a signed 64-bit integer, as a mathematical integer.
pub open spec fn abs1(v: i64) -> int {
    if v < 0 {
        -(v as int)
    } else {
        v as int
    }
}

/// `v + 2048` with 64-bit two's-complement wrap-around.
pub open spec fn wrap_add_2048(v: i64) -> i64 {
    if v as int + 2048 > i64::MAX {
        (v as int + 2048 - 0x1_0000_0000_0000_0000) as i64
    } else {
        (v + 2048) as i64
    }
}

/// The biased upper part of `v`: `(v + 2048) >> 12`.  The bias makes
/// `(hi << 12) + lo` equal `v` even when the sign-extended low part is
/// negative.
pub open spec fn imm_hi(v: i64) -> i64 {
    wrap_add_2048(v) >> 12u32
}

/// The low 12 bits of `v`, sign-extended.
pub open spec fn imm_lo(v: i64) -> i32 {
    let low = (v as u64) & 0xfff;
    if low >= 0x800 {
        (low - 4096) as i32
    } else {
        low as i32
    }
}

/// The materialization sequence for loading `v` into `rd`.
pub open spec fn imm_instrs(rd: u8, v: i64) -> Seq<RvInstr>
    decreases abs1(v),
    via imm_instrs_dec
{
    let hi = imm_hi(v);
    let lo = imm_lo(v);
    if in_i32(v) {
        if hi != 0 {
            seq![RvInstr::Lui(rd, hi as u32), RvInstr::Addiw(rd, rd, lo)]
        } else {
            seq![RvInstr::Addi(rd, RV_REG_ZERO, lo)]
        }
    } else {
        let sh = u64_trailing_zeros(hi as u64);
        imm_instrs(rd, hi >> sh) + seq![RvInstr::Slli(rd, rd, (sh + 12) as u8)] + (if lo != 0 {
            seq![RvInstr::Addi(rd, rd, lo)]
        } else {
            Seq::<RvInstr>::empty()
        })
    }
}

#[via_fn]
proof fn imm_instrs_dec(rd: u8, v: i64) {
    if !in_i32(v) {
        lemma_imm_step(v);
    }
}

/// Facts about one recursion step of the materialization algorithm for a
/// value outside the 32-bit range: the biased upper part is non-zero, its
/// trailing-zero count leaves a legal shift amount, the recursion argument
/// shrinks in magnitude, and shifting the recursion result back left
/// reconstructs the value.
pub proof fn lemma_imm_step(v: i64)
    requires
        !in_i32(v),
    ensures
        imm_hi(v) != 0,
        u64_trailing_zeros(imm_hi(v) as u64) < 52,
        abs1(imm_hi(v) >> u64_trailing_zeros(imm_hi(v) as u64)) < abs1(v),
        -0x80_0000_0000_0000 <= imm_hi(v) >> u64_trailing_zeros(imm_hi(v) as u64)
            <= 0x7f_ffff_ffff_ffff,
        (-0x80_0000_0000_0000 <= v <= 0x7f_ffff_ffff_ffff) ==> (-0x800_0000_0000 <= imm_hi(v)
            >> u64_trailing_zeros(imm_hi(v) as u64) <= 0x7ff_ffff_ffff),
        (-0x800_0000_0000 <= v <= 0x7ff_ffff_ffff) ==> in_i32(
            imm_hi(v) >> u64_trailing_zeros(imm_hi(v) as u64),
        ),
        ((imm_hi(v) >> u64_trailing_zeros(imm_hi(v) as u64)) as u64) << ((u64_trailing_zeros(
            imm_hi(v) as u64,
        ) + 12) as u64) == ((imm_hi(v) as u64) << 12u64),
        ((imm_hi(v) as u64) << 12u64).wrapping_add_signed(imm_lo(v) as i64) == v as u64,
{
    assert(imm_hi(v) != 0 && (imm_hi(v) as u64) != 0 && -0x8_0000_0000_0000 <= imm_hi(v)
        <= 0x8_0000_0000_0000 && ((imm_hi(v) as u64) << 12u64).wrapping_add_signed(
        imm_lo(v) as i64,
    ) == v as u64)
        by (bit_vector)
        requires
            !(-0x8000_0000 <= v <= 0x7fff_ffff),
    ;
    let hi = imm_hi(v);
    let hi_u = hi as u64;
    axiom_u64_trailing_zeros(hi_u);
    let t = u64_trailing_zeros(hi_u);
    assert(hi_u != 0);
    assert(t < 64);
    assert((hi_u >> t as u64) & 1u64 == 1u64);
    assert(hi_u << ((64 - t) as u64) == 0);
    assert({
        &&& t < 52
        &&& abs1(hi >> t) < abs1(v)
        &&& -0x80_0000_0000_0000 <= hi >> t <= 0x7f_ffff_ffff_ffff
        &&& (-0x80_0000_0000_0000 <= v <= 0x7f_ffff_ffff_ffff) ==> (-0x800_0000_0000 <= hi >> t
            <= 0x7ff_ffff_ffff)
        &&& (-0x800_0000_0000 <= v <= 0x7ff_ffff_ffff) ==> in_i32(hi >> t)
        &&& ((hi >> t) as u64) << ((t + 12) as u64) == hi_u << 12u64
    }) by (bit_vector)
        requires
            !(-0x8000_0000 <= v <= 0x7fff_ffff),
            hi == imm_hi(v),
            hi_u == hi as u64,
            t < 64,
            (hi_u >> t as u64) & 1u64 == 1u64,
            hi_u << ((64 - t) as u64) == 0,
    ;
}

/// Reference instruction counts for the materialization sequence: one
/// instruction when the upper 20 bits vanish, at most two for any value in
/// the 32-bit range, and at most eight overall, tightening with the
/// magnitude of the value.
pub proof fn lemma_imm_instrs_len(rd: u8, v: i64)
    ensures
        1 <= imm_instrs(rd, v).len() <= 8,
        in_i32(v) && imm_hi(v) == 0 ==> imm_instrs(rd, v).len() == 1,
        in_i32(v) && imm_hi(v) != 0 ==> imm_instrs(rd, v).len() == 2,
        (-0x800_0000_0000 <= v <= 0x7ff_ffff_ffff) ==> imm_instrs(rd, v).len() <= 4,
        (-0x80_0000_0000_0000 <= v <= 0x7f_ffff_ffff_ffff) ==> imm_instrs(rd, v).len() <= 6,
    decreases abs1(v),
{
    if in_i32(v) {
    } else {
        lemma_imm_step(v);
        let hi = imm_hi(v);
        let sh = u64_trailing_zeros(hi as u64);
        lemma_imm_instrs_len(rd, hi >> sh);
    }
}

/// Immediate round-trip: executing the materialization sequence for any
/// signed 64-bit value `v` against the architecture model leaves exactly
/// `v` (as a 64-bit two's-complement pattern) in the destination register
/// and no other register changed.
pub proof fn lemma_imm_instrs_value(regs: Seq<u64>, rd: u8, v: i64)
    requires
        regs.len() == 32,
        0 < rd < 32,
    ensures
        rv_run(regs, imm_instrs(rd, v)).len() == 32,
        rv_run(regs, imm_instrs(rd, v))[rd as int] == v as u64,
        forall|j: int|
            0 <= j < 32 && j != rd ==> rv_run(regs, imm_instrs(rd, v))[j] == regs[j],
    decreases abs1(v),
{
    let hi = imm_hi(v);
    let lo = imm_lo(v);
    if in_i32(v) {
        if hi != 0 {
            let a = RvInstr::Lui(rd, hi as u32);
            let b = RvInstr::Addiw(rd, rd, lo);
            assert(imm_instrs(rd, v) =~= seq![a] + seq![b]);
            lemma_run_append(regs, seq![a], seq![b]);
            lemma_run_one(regs, a);
            let r1 = instr_step(regs, a);
            lemma_run_one(r1, b);
            assert(sext32((sext32(((hi as u32) << 12u32)).wrapping_add_signed(lo as i64)) as u32)
                == v as u64) by (bit_vector)
                requires
                    -0x8000_0000 <= v <= 0x7fff_ffff,
                    hi == imm_hi(v),
                    lo == imm_lo(v),
            ;
        } else {
            lemma_run_one(regs, RvInstr::Addi(rd, RV_REG_ZERO, lo));
            assert((0u64).wrapping_add_signed(lo as i64) == v as u64) by (bit_vector)
                requires
                    -0x8000_0000 <= v <= 0x7fff_ffff,
                    imm_hi(v) == 0,
                    lo == imm_lo(v),
            ;
        }
    } else {
        lemma_imm_step(v);
        let sh = u64_trailing_zeros(hi as u64);
        let nxt = hi >> sh;
        let a = imm_instrs(rd, nxt);
        let b = seq![RvInstr::Slli(rd, rd, (sh + 12) as u8)];
        let c: Seq<RvInstr> = if lo != 0 {
            seq![RvInstr::Addi(rd, rd, lo)]
        } else {
            Seq::<RvInstr>::empty()
        };
        assert(imm_instrs(rd, v) == a + b + c);
        lemma_run_append(regs, a + b, c);
        lemma_run_append(regs, a, b);
        lemma_imm_instrs_value(regs, rd, nxt);
        let r1 = rv_run(regs, a);
        lemma_run_one(r1, b[0]);
        assert(rv_run(r1, b) == instr_step(r1, b[0]));
        let shifted = (nxt as u64) << ((((sh + 12) as u8) % 64) as u64);
        assert(shifted == (hi as u64) << 12u64) by {
            assert((((sh + 12) as u8) % 64) as u64 == (sh + 12) as u64);
        }
        let r2 = instr_step(r1, b[0]);
        assert(r2[rd as int] == shifted);
        if lo != 0 {
            lemma_run_one(r2, c[0]);
            assert(rv_run(r2, c) == instr_step(r2, c[0]));
            assert(instr_step(r2, c[0])[rd as int] == shifted.wrapping_add_signed(lo as i64));
        } else {
            assert(rv_run(r2, c) == r2);
            assert(((hi as u64) << 12u64).wrapping_add_signed(0) == (hi as u64) << 12u64);
        }
    }
}

} // verus!
