//! RV64 instruction-word encodings and a small architecture model.
//!
//! The encoders build 32-bit instruction words from their fields, following
//! the base integer instruction formats (R-type, I-type, U-type, J-type,
//! S-type).  The model gives the straight-line ALU fragment of the
//! architecture a semantics (`instr_step` / `rv_run`) over a 32-entry
//! register file, which is what the immediate-materialization proofs and the
//! zero-extension laws are stated against.  Memory and control-flow
//! instructions are encoded here but are outside the model's scope.

use vstd::prelude::*;

verus! {

// ---------------------------------------------------------------------------
// Instruction-word encoders.
//
// Each takes register numbers and the raw immediate field bits; immediates
// wider than their field are masked to the field, as the hardware formats
// prescribe.  Register numbers must be below 32 for the fields not to
// overlap.

/// U-type `lui`: load the upper 20 bits of `imm` into bits 31:12 of `rd`.
#[verifier::allow_in_spec]
pub fn enc_lui(rd: u8, imm: u32) -> u32
    returns
        (imm & 0xffff_f000) | ((rd as u32) << 7) | 0x37u32,
{
    (imm & 0xffff_f000) | ((rd as u32) << 7) | 0x37
}

/// U-type `auipc`: `rd = pc + (imm & 0xffff_f000)` sign-extended.
#[verifier::allow_in_spec]
pub fn enc_auipc(rd: u8, imm: u32) -> u32
    returns
        (imm & 0xffff_f000) | ((rd as u32) << 7) | 0x17u32,
{
    (imm & 0xffff_f000) | ((rd as u32) << 7) | 0x17
}

/// R-type `add rd, rs1, rs2`.
#[verifier::allow_in_spec]
pub fn enc_add(rd: u8, rs1: u8, rs2: u8) -> u32
    returns
        ((rs2 as u32) << 20) | ((rs1 as u32) << 15) | ((rd as u32) << 7) | 0x33u32,
{
    ((rs2 as u32) << 20) | ((rs1 as u32) << 15) | ((rd as u32) << 7) | 0x33
}

/// R-type `sub rd, rs1, rs2`.
#[verifier::allow_in_spec]
pub fn enc_sub(rd: u8, rs1: u8, rs2: u8) -> u32
    returns
        0x4000_0000u32 | ((rs2 as u32) << 20) | ((rs1 as u32) << 15) | ((rd as u32) << 7)
            | 0x33u32,
{
    0x4000_0000 | ((rs2 as u32) << 20) | ((rs1 as u32) << 15) | ((rd as u32) << 7) | 0x33
}

/// R-type `subw rd, rs1, rs2` (32-bit subtract, result sign-extended).
#[verifier::allow_in_spec]
pub fn enc_subw(rd: u8, rs1: u8, rs2: u8) -> u32
    returns
        0x4000_0000u32 | ((rs2 as u32) << 20) | ((rs1 as u32) << 15) | ((rd as u32) << 7)
            | 0x3bu32,
{
    0x4000_0000 | ((rs2 as u32) << 20) | ((rs1 as u32) << 15) | ((rd as u32) << 7) | 0x3b
}

/// I-type `addi rd, rs1, imm`; the low 12 bits of `imm` are the field.
#[verifier::allow_in_spec]
pub fn enc_addi(rd: u8, rs1: u8, imm: u32) -> u32
    returns
        ((imm & 0xfff) << 20) | ((rs1 as u32) << 15) | ((rd as u32) << 7) | 0x13u32,
{
    ((imm & 0xfff) << 20) | ((rs1 as u32) << 15) | ((rd as u32) << 7) | 0x13
}

/// I-type `addiw rd, rs1, imm` (32-bit add, result sign-extended).
#[verifier::allow_in_spec]
pub fn enc_addiw(rd: u8, rs1: u8, imm: u32) -> u32
    returns
        ((imm & 0xfff) << 20) | ((rs1 as u32) << 15) | ((rd as u32) << 7) | 0x1bu32,
{
    ((imm & 0xfff) << 20) | ((rs1 as u32) << 15) | ((rd as u32) << 7) | 0x1b
}

/// I-type `slli rd, rs1, shamt` with the 6-bit RV64 shift-amount field.
#[verifier::allow_in_spec]
pub fn enc_slli(rd: u8, rs1: u8, shamt: u8) -> u32
    returns
        (((shamt as u32) & 0x3f) << 20) | ((rs1 as u32) << 15) | 0x1000u32 | ((rd as u32) << 7)
            | 0x13u32,
{
    (((shamt as u32) & 0x3f) << 20) | ((rs1 as u32) << 15) | 0x1000 | ((rd as u32) << 7) | 0x13
}

/// I-type `srli rd, rs1, shamt` (logical right shift).
#[verifier::allow_in_spec]
pub fn enc_srli(rd: u8, rs1: u8, shamt: u8) -> u32
    returns
        (((shamt as u32) & 0x3f) << 20) | ((rs1 as u32) << 15) | 0x5000u32 | ((rd as u32) << 7)
            | 0x13u32,
{
    (((shamt as u32) & 0x3f) << 20) | ((rs1 as u32) << 15) | 0x5000 | ((rd as u32) << 7) | 0x13
}

/// I-type `ld rd, imm(rs1)`: load a 64-bit value.
#[verifier::allow_in_spec]
pub fn enc_ld(rd: u8, rs1: u8, imm: u32) -> u32
    returns
        ((imm & 0xfff) << 20) | ((rs1 as u32) << 15) | 0x3000u32 | ((rd as u32) << 7) | 0x03u32,
{
    ((imm & 0xfff) << 20) | ((rs1 as u32) << 15) | 0x3000 | ((rd as u32) << 7) | 0x03
}

/// S-type `sd rs2, imm(rs1)`: store a 64-bit value.
#[verifier::allow_in_spec]
pub fn enc_sd(rs2: u8, rs1: u8, imm: u32) -> u32
    returns
        (((imm >> 5) & 0x7f) << 25) | ((rs2 as u32) << 20) | ((rs1 as u32) << 15) | 0x3000u32
            | ((imm & 0x1f) << 7) | 0x23u32,
{
    (((imm >> 5) & 0x7f) << 25) | ((rs2 as u32) << 20) | ((rs1 as u32) << 15) | 0x3000
        | ((imm & 0x1f) << 7) | 0x23
}

/// J-type `jal rd, imm`: the byte displacement `imm` is scrambled into the
/// J-format immediate fields (bits 20, 10:1, 11, 19:12 of the displacement).
#[verifier::allow_in_spec]
pub fn enc_jal(rd: u8, imm: u32) -> u32
    returns
        (((imm >> 20) & 1) << 31) | (((imm >> 1) & 0x3ff) << 21) | (((imm >> 11) & 1) << 20)
            | (((imm >> 12) & 0xff) << 12) | ((rd as u32) << 7) | 0x6fu32,
{
    (((imm >> 20) & 1) << 31) | (((imm >> 1) & 0x3ff) << 21) | (((imm >> 11) & 1) << 20)
        | (((imm >> 12) & 0xff) << 12) | ((rd as u32) << 7) | 0x6f
}

/// I-type `jalr rd, imm(rs1)`: indirect jump-and-link.
#[verifier::allow_in_spec]
pub fn enc_jalr(rd: u8, rs1: u8, imm: u32) -> u32
    returns
        ((imm & 0xfff) << 20) | ((rs1 as u32) << 15) | ((rd as u32) << 7) | 0x67u32,
{
    ((imm & 0xfff) << 20) | ((rs1 as u32) << 15) | ((rd as u32) << 7) | 0x67
}

// ---------------------------------------------------------------------------
// The architecture model: straight-line ALU instructions.

/// The ALU fragment of RV64 used by immediate materialization and the
/// translated arithmetic: enough to state what a straight-line emitted
/// sequence computes.
#[derive(Clone, Copy, PartialEq, Eq, Structural, Debug)]
pub enum RvInstr {
    /// `lui rd, hi`: `rd = sign_extend((hi << 12) as u32)`.
    Lui(u8, u32),
    /// `addi rd, rs, imm`.
    Addi(u8, u8, i32),
    /// `addiw rd, rs, imm`: 32-bit add, sign-extended.
    Addiw(u8, u8, i32),
    /// `slli rd, rs, shamt`.
    Slli(u8, u8, u8),
    /// `srli rd, rs, shamt`.
    Srli(u8, u8, u8),
    /// `add rd, rs1, rs2`.
    Add(u8, u8, u8),
    /// `sub rd, rs1, rs2`.
    Sub(u8, u8, u8),
    /// `subw rd, rs1, rs2`: 32-bit subtract, sign-extended.
    Subw(u8, u8, u8),
}

/// The 32-bit word that encodes a model instruction.  `Lui` carries the
/// upper-immediate value before the 12-bit shift, as the emitter passes it.
pub open spec fn instr_word(i: RvInstr) -> u32 {
    match i {
        RvInstr::Lui(rd, imm) => enc_lui(rd, imm << 12),
        RvInstr::Addi(rd, rs, imm) => enc_addi(rd, rs, imm as u32),
        RvInstr::Addiw(rd, rs, imm) => enc_addiw(rd, rs, imm as u32),
        RvInstr::Slli(rd, rs, sh) => enc_slli(rd, rs, sh),
        RvInstr::Srli(rd, rs, sh) => enc_srli(rd, rs, sh),
        RvInstr::Add(rd, rs1, rs2) => enc_add(rd, rs1, rs2),
        RvInstr::Sub(rd, rs1, rs2) => enc_sub(rd, rs1, rs2),
        RvInstr::Subw(rd, rs1, rs2) => enc_subw(rd, rs1, rs2),
    }
}

/// All register fields of a model instruction are valid register numbers.
pub open spec fn instr_regs_ok(i: RvInstr) -> bool {
    match i {
        RvInstr::Lui(rd, _) => rd < 32,
        RvInstr::Addi(rd, rs, _) => rd < 32 && rs < 32,
        RvInstr::Addiw(rd, rs, _) => rd < 32 && rs < 32,
        RvInstr::Slli(rd, rs, _) => rd < 32 && rs < 32,
        RvInstr::Srli(rd, rs, _) => rd < 32 && rs < 32,
        RvInstr::Add(rd, rs1, rs2) => rd < 32 && rs1 < 32 && rs2 < 32,
        RvInstr::Sub(rd, rs1, rs2) => rd < 32 && rs1 < 32 && rs2 < 32,
        RvInstr::Subw(rd, rs1, rs2) => rd < 32 && rs1 < 32 && rs2 < 32,
    }
}

/// The word sequence that encodes a model instruction sequence.
pub open spec fn words_of(s: Seq<RvInstr>) -> Seq<u32> {
    s.map_values(|i: RvInstr| instr_word(i))
}

/// Encode one model instruction as its 32-bit word.
pub fn instr_encode(i: RvInstr) -> (w: u32)
    ensures
        w == instr_word(i),
{
    match i {
        RvInstr::Lui(rd, imm) => enc_lui(rd, imm << 12),
        RvInstr::Addi(rd, rs, imm) => enc_addi(rd, rs, imm as u32),
        RvInstr::Addiw(rd, rs, imm) => enc_addiw(rd, rs, imm as u32),
        RvInstr::Slli(rd, rs, sh) => enc_slli(rd, rs, sh),
        RvInstr::Srli(rd, rs, sh) => enc_srli(rd, rs, sh),
        RvInstr::Add(rd, rs1, rs2) => enc_add(rd, rs1, rs2),
        RvInstr::Sub(rd, rs1, rs2) => enc_sub(rd, rs1, rs2),
        RvInstr::Subw(rd, rs1, rs2) => enc_subw(rd, rs1, rs2),
    }
}

// ---------------------------------------------------------------------------
// Semantics.

/// Sign-extend a 32-bit value to 64 bits.
pub open spec fn sext32(x: u32) -> u64 {
    if x >= 0x8000_0000 {
        (x as u64) | 0xffff_ffff_0000_0000
    } else {
        x as u64
    }
}

/// Read a register: `x0` is hard-wired to zero.
pub open spec fn rv_get(regs: Seq<u64>, r: u8) -> u64 {
    if r == 0 {
        0
    } else {
        regs[r as int]
    }
}

/// Write a register: writes to `x0` are discarded.
pub open spec fn rv_set(regs: Seq<u64>, r: u8, v: u64) -> Seq<u64> {
    if r == 0 || r as int >= regs.len() {
        regs
    } else {
        regs.update(r as int, v)
    }
}

/// One step of the model: the register file after executing `i`.
pub open spec fn instr_step(regs: Seq<u64>, i: RvInstr) -> Seq<u64> {
    match i {
        RvInstr::Lui(rd, imm) => rv_set(regs, rd, sext32(imm << 12)),
        RvInstr::Addi(rd, rs, imm) => rv_set(
            regs,
            rd,
            rv_get(regs, rs).wrapping_add_signed(imm as i64),
        ),
        RvInstr::Addiw(rd, rs, imm) => rv_set(
            regs,
            rd,
            sext32(rv_get(regs, rs).wrapping_add_signed(imm as i64) as u32),
        ),
        RvInstr::Slli(rd, rs, sh) => rv_set(regs, rd, rv_get(regs, rs) << ((sh % 64) as u64)),
        RvInstr::Srli(rd, rs, sh) => rv_set(regs, rd, rv_get(regs, rs) >> ((sh % 64) as u64)),
        RvInstr::Add(rd, rs1, rs2) => rv_set(
            regs,
            rd,
            rv_get(regs, rs1).wrapping_add(rv_get(regs, rs2)),
        ),
        RvInstr::Sub(rd, rs1, rs2) => rv_set(
            regs,
            rd,
            rv_get(regs, rs1).wrapping_sub(rv_get(regs, rs2)),
        ),
        RvInstr::Subw(rd, rs1, rs2) => rv_set(
            regs,
            rd,
            sext32(rv_get(regs, rs1).wrapping_sub(rv_get(regs, rs2)) as u32),
        ),
    }
}

/// Run a straight-line instruction sequence from a register file.
pub open spec fn rv_run(regs: Seq<u64>, prog: Seq<RvInstr>) -> Seq<u64>
    decreases prog.len(),
{
    if prog.len() == 0 {
        regs
    } else {
        rv_run(instr_step(regs, prog[0]), prog.subrange(1, prog.len() as int))
    }
}

/// Stepping preserves the register-file length.
pub proof fn lemma_step_len(regs: Seq<u64>, i: RvInstr)
    requires
        regs.len() == 32,
    ensures
        instr_step(regs, i).len() == 32,
{
}

/// Running preserves the register-file length.
pub proof fn lemma_run_len(regs: Seq<u64>, prog: Seq<RvInstr>)
    requires
        regs.len() == 32,
    ensures
        rv_run(regs, prog).len() == 32,
    decreases prog.len(),
{
    if prog.len() > 0 {
        lemma_run_len(instr_step(regs, prog[0]), prog.subrange(1, prog.len() as int));
    }
}

/// Running a concatenation runs the two parts in order.
pub proof fn lemma_run_append(regs: Seq<u64>, a: Seq<RvInstr>, b: Seq<RvInstr>)
    ensures
        rv_run(regs, a + b) == rv_run(rv_run(regs, a), b),
    decreases a.len(),
{
    if a.len() == 0 {
        assert(a + b =~= b);
    } else {
        assert((a + b).subrange(1, (a + b).len() as int) =~= a.subrange(1, a.len() as int) + b);
        lemma_run_append(instr_step(regs, a[0]), a.subrange(1, a.len() as int), b);
    }
}

/// Running a single instruction is one step.
pub proof fn lemma_run_one(regs: Seq<u64>, i: RvInstr)
    ensures
        rv_run(regs, seq![i]) == instr_step(regs, i),
{
    let s = seq![i];
    assert(s.subrange(1, 1) =~= Seq::<RvInstr>::empty());
    assert(rv_run(instr_step(regs, i), Seq::<RvInstr>::empty()) == instr_step(regs, i));
}

/// The zero-extension idiom: clear the upper 32 bits of `rs` into `rd` by
/// shifting left then logically right by 32.
pub open spec fn zext_instrs(rd: u8, rs: u8) -> Seq<RvInstr> {
    seq![RvInstr::Slli(rd, rs, 32), RvInstr::Srli(rd, rd, 32)]
}

/// Concatenation distributes over encoding.
pub proof fn lemma_words_of_app(a: Seq<RvInstr>, b: Seq<RvInstr>)
    ensures
        words_of(a + b) =~= words_of(a) + words_of(b),
{
}

/// Zero-extension idempotence: applying the 32-bit zero-extension idiom
/// twice leaves the register file exactly as applying it once does.
pub proof fn lemma_zext_idempotent(regs: Seq<u64>, rd: u8, rs: u8)
    requires
        regs.len() == 32,
        rd < 32,
        rs < 32,
    ensures
        rv_run(regs, zext_instrs(rd, rs) + zext_instrs(rd, rd)) == rv_run(
            regs,
            zext_instrs(rd, rs),
        ),
{
    lemma_run_append(regs, zext_instrs(rd, rs), zext_instrs(rd, rd));
    let once = rv_run(regs, zext_instrs(rd, rs));
    lemma_zext_unfold(regs, rd, rs);
    assert(once == rv_set(regs, rd, (rv_get(regs, rs) << 32u64) >> 32u64));
    lemma_zext_unfold(once, rd, rd);
    if rd != 0 {
        let x = rv_get(regs, rs);
        assert(((((x << 32u64) >> 32u64) << 32u64) >> 32u64) == ((x << 32u64) >> 32u64))
            by (bit_vector);
        assert(rv_run(once, zext_instrs(rd, rd)) =~= once);
    }
}

/// Unfold the two-instruction zero-extension idiom into one register write.
pub proof fn lemma_zext_unfold(regs: Seq<u64>, rd: u8, rs: u8)
    requires
        regs.len() == 32,
        rd < 32,
        rs < 32,
    ensures
        rv_run(regs, zext_instrs(rd, rs)) == rv_set(
            regs,
            rd,
            (rv_get(regs, rs) << 32u64) >> 32u64,
        ),
{
    let a = RvInstr::Slli(rd, rs, 32);
    let b = RvInstr::Srli(rd, rd, 32);
    assert(zext_instrs(rd, rs) =~= seq![a] + seq![b]);
    lemma_run_append(regs, seq![a], seq![b]);
    lemma_run_one(regs, a);
    let r1 = instr_step(regs, a);
    lemma_run_one(r1, b);
    if rd == 0 {
        assert(rv_run(regs, zext_instrs(rd, rs)) == regs);
    } else {
        assert(rv_get(r1, rd) == rv_get(regs, rs) << 32u64);
        assert(instr_step(r1, b) =~= rv_set(regs, rd, (rv_get(regs, rs) << 32u64) >> 32u64));
    }
}

/// Execute one model instruction against a 32-entry register file.
pub fn rv_step_exec(regs: &mut Vec<u64>, i: RvInstr)
    requires
        old(regs)@.len() == 32,
        instr_regs_ok(i),
    ensures
        final(regs)@ == instr_step(old(regs)@, i),
        final(regs)@.len() == 32,
{
    match i {
        RvInstr::Lui(rd, imm) => {
            let v: u32 = imm << 12u32;
            set_reg(regs, rd, sext32_exec(v));
        },
        RvInstr::Addi(rd, rs, imm) => {
            let v: u64 = get_reg(regs, rs).wrapping_add_signed(imm as i64);
            set_reg(regs, rd, v);
        },
        RvInstr::Addiw(rd, rs, imm) => {
            let v: u64 = get_reg(regs, rs).wrapping_add_signed(imm as i64);
            set_reg(regs, rd, sext32_exec(#[verifier::truncate] (v as u32)));
        },
        RvInstr::Slli(rd, rs, sh) => {
            let v: u64 = get_reg(regs, rs) << ((sh % 64) as u64);
            set_reg(regs, rd, v);
        },
        RvInstr::Srli(rd, rs, sh) => {
            let v: u64 = get_reg(regs, rs) >> ((sh % 64) as u64);
            set_reg(regs, rd, v);
        },
        RvInstr::Add(rd, rs1, rs2) => {
            let v: u64 = get_reg(regs, rs1).wrapping_add(get_reg(regs, rs2));
            set_reg(regs, rd, v);
        },
        RvInstr::Sub(rd, rs1, rs2) => {
            let v: u64 = get_reg(regs, rs1).wrapping_sub(get_reg(regs, rs2));
            set_reg(regs, rd, v);
        },
        RvInstr::Subw(rd, rs1, rs2) => {
            let v: u64 = get_reg(regs, rs1).wrapping_sub(get_reg(regs, rs2));
            set_reg(regs, rd, sext32_exec(#[verifier::truncate] (v as u32)));
        },
    }
}

/// Execute a straight-line instruction sequence against a register file.
pub fn rv_run_exec(regs: &mut Vec<u64>, prog: &Vec<RvInstr>)
    requires
        old(regs)@.len() == 32,
        forall|k: int| 0 <= k < prog@.len() ==> instr_regs_ok(#[trigger] prog@[k]),
    ensures
        final(regs)@ == rv_run(old(regs)@, prog@),
        final(regs)@.len() == 32,
{
    let n = prog.len();
    proof {
        assert(prog@.subrange(0, n as int) =~= prog@);
    }
    let mut idx: usize = 0;
    while idx < n
        invariant
            idx <= n,
            n == prog@.len(),
            regs@.len() == 32,
            forall|k: int| 0 <= k < prog@.len() ==> instr_regs_ok(#[trigger] prog@[k]),
            rv_run(old(regs)@, prog@) == rv_run(regs@, prog@.subrange(idx as int, n as int)),
        decreases n - idx,
    {
        let i = prog[idx];
        proof {
            let rest = prog@.subrange(idx as int, n as int);
            assert(rest[0] == prog@[idx as int]);
            assert(rest.subrange(1, rest.len() as int) =~= prog@.subrange(
                idx as int + 1,
                n as int,
            ));
        }
        rv_step_exec(regs, i);
        idx = idx + 1;
    }
    proof {
        assert(prog@.subrange(n as int, n as int) =~= Seq::<RvInstr>::empty());
    }
}

fn get_reg(regs: &Vec<u64>, r: u8) -> (v: u64)
    requires
        regs@.len() == 32,
        r < 32,
    ensures
        v == rv_get(regs@, r),
{
    if r == 0 {
        0
    } else {
        regs[r as usize]
    }
}

fn set_reg(regs: &mut Vec<u64>, r: u8, v: u64)
    requires
        old(regs)@.len() == 32,
        r < 32,
    ensures
        final(regs)@ == rv_set(old(regs)@, r, v),
        final(regs)@.len() == 32,
{
    if r != 0 {
        regs.set(r as usize, v);
    }
}

/// Sign-extend a 32-bit value to 64 bits.
#[verifier::allow_in_spec]
pub fn sext32_exec(x: u32) -> u64
    returns
        sext32(x),
{
    if x >= 0x8000_0000 {
        (x as u64) | 0xffff_ffff_0000_0000
    } else {
        x as u64
    }
}

} // verus!
