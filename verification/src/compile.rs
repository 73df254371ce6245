//! The translation engine: code buffer, per-opcode code generation,
//! two-phase relocation, and the compilation driver.

use vstd::prelude::*;

use crate::consts::{ALU64_K_ADD, ALU64_K_MOV, ALU64_K_SUB, ALU64_X_ADD, ALU64_X_MOV, ALU64_X_SUB};
use crate::consts::{ALU_K_ADD, ALU_K_MOV, ALU_K_SUB, ALU_X_ADD, ALU_X_MOV, ALU_X_SUB};
use crate::consts::{BPF_ALU64, BPF_MAX_REGS, BPF_REG_R0, JMP_K_CALL, JMP_K_EXIT, LD_IMM_DW};
use crate::consts::{RV_REG_A0, RV_REG_A1, RV_REG_A2, RV_REG_A3, RV_REG_A4, RV_REG_A5};
use crate::consts::{RV_REG_FP, RV_REG_RA, RV_REG_S1, RV_REG_S2, RV_REG_S3, RV_REG_S4};
use crate::consts::{RV_REG_S5, RV_REG_SP, RV_REG_T1, RV_REG_T2, RV_REG_ZERO};
use crate::materialize::{abs1, imm_hi, imm_instrs, in_i12, in_i32, lemma_imm_instrs_len};
use crate::materialize::{imm_lo, lemma_imm_step};
use crate::rv::{enc_add, enc_addi, enc_addiw, enc_auipc, enc_jal, enc_jalr, enc_ld, enc_lui};
use crate::rv::{enc_sd, enc_slli, enc_srli, enc_sub, enc_subw, instr_word, words_of, zext_instrs};
use crate::rv::{lemma_words_of_app, RvInstr};

verus! {

/// Capacity bound on the code buffer, in 32-bit words.  One megabyte of
/// code keeps every byte offset well inside `i32` and every unconditional
/// branch displacement inside the 21-bit `jal` range.
pub const MAX_CODE_WORDS: usize = 0x3_ffff;

/// The fixed virtual-to-physical register map: eBPF R0 holds results in
/// `a5`, R1..R5 are the native argument registers `a0..a4`, R6..R9 live in
/// the callee-saved `s1..s4`, and the frame pointer in `s5`.
pub open spec fn rv_reg_of(r: u8) -> u8 {
    if r == 0 {
        RV_REG_A5
    } else if r == 1 {
        RV_REG_A0
    } else if r == 2 {
        RV_REG_A1
    } else if r == 3 {
        RV_REG_A2
    } else if r == 4 {
        RV_REG_A3
    } else if r == 5 {
        RV_REG_A4
    } else if r == 6 {
        RV_REG_S1
    } else if r == 7 {
        RV_REG_S2
    } else if r == 8 {
        RV_REG_S3
    } else if r == 9 {
        RV_REG_S4
    } else {
        RV_REG_S5
    }
}

/// Map an eBPF register index to its RISC-V physical register.  The map is
/// total on the 11-register file and injective; every image is a nonzero,
/// valid register number.
fn bpf_to_rv_reg(reg: u8) -> (r: u8)
    requires
        reg < BPF_MAX_REGS,
    ensures
        r == rv_reg_of(reg),
        0 < r < 32,
{
    if reg == 0 {
        RV_REG_A5
    } else if reg == 1 {
        RV_REG_A0
    } else if reg == 2 {
        RV_REG_A1
    } else if reg == 3 {
        RV_REG_A2
    } else if reg == 4 {
        RV_REG_A3
    } else if reg == 5 {
        RV_REG_A4
    } else if reg == 6 {
        RV_REG_S1
    } else if reg == 7 {
        RV_REG_S2
    } else if reg == 8 {
        RV_REG_S3
    } else if reg == 9 {
        RV_REG_S4
    } else {
        RV_REG_S5
    }
}

/// The conventional assembler name of each physical register.
pub open spec fn rv_reg_name_of(reg: u8) -> Seq<char> {
    if reg == 0 { "zero"@ }
    else if reg == 1 { "ra"@ }
    else if reg == 2 { "sp"@ }
    else if reg == 3 { "gp"@ }
    else if reg == 4 { "tp"@ }
    else if reg == 5 { "t0"@ }
    else if reg == 6 { "t1"@ }
    else if reg == 7 { "t2"@ }
    else if reg == 8 { "fp"@ }
    else if reg == 9 { "s1"@ }
    else if reg == 10 { "a0"@ }
    else if reg == 11 { "a1"@ }
    else if reg == 12 { "a2"@ }
    else if reg == 13 { "a3"@ }
    else if reg == 14 { "a4"@ }
    else if reg == 15 { "a5"@ }
    else if reg == 16 { "a6"@ }
    else if reg == 17 { "a7"@ }
    else if reg == 18 { "s2"@ }
    else if reg == 19 { "s3"@ }
    else if reg == 20 { "s4"@ }
    else if reg == 21 { "s5"@ }
    else if reg == 22 { "s6"@ }
    else if reg == 23 { "s7"@ }
    else if reg == 24 { "s8"@ }
    else if reg == 25 { "s9"@ }
    else if reg == 26 { "s10"@ }
    else if reg == 27 { "s11"@ }
    else if reg == 28 { "t3"@ }
    else if reg == 29 { "t4"@ }
    else if reg == 30 { "t5"@ }
    else { "t6"@ }
}

/// Diagnostic name table for the physical registers.
pub fn rv_reg_name(reg: u8) -> (r: &'static str)
    requires
        reg < 32,
    ensures
        r@ == rv_reg_name_of(reg),
{
    if reg == 0 { "zero" }
    else if reg == 1 { "ra" }
    else if reg == 2 { "sp" }
    else if reg == 3 { "gp" }
    else if reg == 4 { "tp" }
    else if reg == 5 { "t0" }
    else if reg == 6 { "t1" }
    else if reg == 7 { "t2" }
    else if reg == 8 { "fp" }
    else if reg == 9 { "s1" }
    else if reg == 10 { "a0" }
    else if reg == 11 { "a1" }
    else if reg == 12 { "a2" }
    else if reg == 13 { "a3" }
    else if reg == 14 { "a4" }
    else if reg == 15 { "a5" }
    else if reg == 16 { "a6" }
    else if reg == 17 { "a7" }
    else if reg == 18 { "s2" }
    else if reg == 19 { "s3" }
    else if reg == 20 { "s4" }
    else if reg == 21 { "s5" }
    else if reg == 22 { "s6" }
    else if reg == 23 { "s7" }
    else if reg == 24 { "s8" }
    else if reg == 25 { "s9" }
    else if reg == 26 { "s10" }
    else if reg == 27 { "s11" }
    else if reg == 28 { "t3" }
    else if reg == 29 { "t4" }
    else if reg == 30 { "t5" }
    else { "t6" }
}

/// The value fits the signed 32-bit range.
#[verifier::allow_in_spec]
pub fn is_in_i32_range(v: i64) -> bool
    returns
        in_i32(v),
{
    -0x8000_0000 <= v && v < 0x8000_0000
}

/// The value fits the signed 12-bit immediate field.
#[verifier::allow_in_spec]
pub fn is_in_i12_range(v: i32) -> bool
    returns
        in_i12(v),
{
    -0x800 <= v && v < 0x800
}

/// One in-flight compilation: the source eBPF instruction words, the
/// growing RISC-V code buffer, the source-index-to-code-offset map, and the
/// two lists of relocation sites awaiting repair.
pub struct JitContext<'a> {
    bpf_insns: &'a [u64],
    bpf_pc: usize,
    source: Vec<String>,
    code: Vec<u32>,
    code_size: usize,
    pc_map: Vec<(usize, usize)>,
    plt_loads: Vec<usize>,
    exits: Vec<usize>,
}

impl<'a> JitContext<'a> {
    /// The source eBPF instruction words.
    pub closed spec fn insns(self) -> Seq<u64> {
        self.bpf_insns@
    }

    /// The source instruction index the translation loop is at.
    pub closed spec fn pc(self) -> usize {
        self.bpf_pc
    }

    /// The diagnostic text lines recorded so far.
    pub closed spec fn source_lines(self) -> Seq<String> {
        self.source@
    }

    /// The code buffer: one 32-bit word per emitted instruction.
    pub closed spec fn code(self) -> Seq<u32> {
        self.code@
    }

    /// The size of the emitted code in bytes, always `4 * code().len()`.
    pub closed spec fn size(self) -> usize {
        self.code_size
    }

    /// Source instruction index to code byte offset, in insertion order.
    pub closed spec fn pcmap(self) -> Seq<(usize, usize)> {
        self.pc_map@
    }

    /// Byte offsets of the pending `auipc`+`addi` helper-table loads.
    pub closed spec fn call_sites(self) -> Seq<usize> {
        self.plt_loads@
    }

    /// Byte offsets of the pending exit branches.
    pub closed spec fn exit_sites(self) -> Seq<usize> {
        self.exits@
    }

    /// Buffer bookkeeping invariant: the byte size tracks the word count,
    /// the buffer is within capacity, and every recorded relocation site is
    /// an aligned offset of already-emitted placeholder words, the sites
    /// pairwise disjoint.
    pub closed spec fn wf(self) -> bool {
        &&& self.code_size == self.code@.len() * 4
        &&& self.code@.len() <= MAX_CODE_WORDS
        &&& forall|k: int|
            0 <= k < self.plt_loads@.len() ==> (#[trigger] self.plt_loads@[k]) % 4 == 0
                && self.plt_loads@[k] + 8 <= self.code_size
        &&& forall|k: int|
            0 <= k < self.exits@.len() ==> (#[trigger] self.exits@[k]) % 4 == 0
                && self.exits@[k] + 4 <= self.code_size
        &&& forall|k: int, l: int|
            0 <= k < l < self.plt_loads@.len() ==> #[trigger] self.plt_loads@[k] + 8
                <= #[trigger] self.plt_loads@[l]
        &&& forall|k: int, l: int|
            0 <= k < l < self.exits@.len() ==> #[trigger] self.exits@[k] + 4
                <= #[trigger] self.exits@[l]
        &&& forall|k: int, l: int|
            0 <= k < self.exits@.len() && 0 <= l < self.plt_loads@.len() ==> (
            #[trigger] self.exits@[k] + 4 <= #[trigger] self.plt_loads@[l] || self.plt_loads@[l]
                + 8 <= self.exits@[k])
    }

    /// Create a fresh compilation context over an instruction stream.
    pub fn new(bpf_insns: &'a [u64]) -> (r: JitContext<'a>)
        ensures
            r.wf(),
            r.insns() == bpf_insns@,
            r.pc() == 0,
            r.source_lines() == Seq::<String>::empty(),
            r.code() == Seq::<u32>::empty(),
            r.size() == 0,
            r.pcmap() == Seq::<(usize, usize)>::empty(),
            r.call_sites() == Seq::<usize>::empty(),
            r.exit_sites() == Seq::<usize>::empty(),
    {
        JitContext {
            bpf_insns,
            bpf_pc: 0,
            source: Vec::new(),
            code: Vec::new(),
            code_size: 0,
            pc_map: Vec::new(),
            plt_loads: Vec::new(),
            exits: Vec::new(),
        }
    }

    /// The generated code words.
    pub fn get_rv_code(&self) -> (r: &Vec<u32>)
        ensures
            r@ == self.code(),
    {
        &self.code
    }

    /// The mapping from source instruction index to the code byte offset at
    /// which that instruction's translation begins.
    pub fn get_pc_map(&self) -> (r: &Vec<(usize, usize)>)
        ensures
            r@ == self.pcmap(),
    {
        &self.pc_map
    }

    /// The recorded diagnostic text lines: whatever the caller noted via
    /// `comment`.  Translation itself writes nothing here.
    pub fn get_rv_source(&self) -> (r: &Vec<String>)
        ensures
            r@ == self.source_lines(),
    {
        &self.source
    }

    /// Record a diagnostic line.  The text stream is an optional,
    /// caller-fed side channel: the translator itself emits no text, and
    /// the contracts pin the stream unchanged through translation, so its
    /// absence changes no other behavior and it never affects the code
    /// buffer or any offset.
    pub fn comment(&mut self, msg: String)
        ensures
            final(self).source_lines() == old(self).source_lines().push(msg),
            final(self).insns() == old(self).insns(),
            final(self).pc() == old(self).pc(),
            final(self).code() == old(self).code(),
            final(self).size() == old(self).size(),
            final(self).pcmap() == old(self).pcmap(),
            final(self).call_sites() == old(self).call_sites(),
            final(self).exit_sites() == old(self).exit_sites(),
            old(self).wf() ==> final(self).wf(),
    {
        self.source.push(msg);
    }

    /// Append one instruction word to the code buffer.
    fn emit(&mut self, i: u32)
        requires
            old(self).wf(),
            old(self).code@.len() < MAX_CODE_WORDS,
        ensures
            final(self).wf(),
            same_tables(*final(self), *old(self)),
            final(self).code() == old(self).code().push(i),
            final(self).size() == old(self).size() + 4,
    {
        self.code.push(i);
        self.code_size = self.code_size + 4;
    }

    /// Append one intentionally invalid word standing in for a relocation
    /// patch; the label only documents what the patch will write.
    fn emit_placeholder(&mut self, _label: &str)
        requires
            old(self).wf(),
            old(self).code@.len() < MAX_CODE_WORDS,
        ensures
            final(self).wf(),
            same_tables(*final(self), *old(self)),
            final(self).code() == old(self).code().push(0u32),
            final(self).size() == old(self).size() + 4,
    {
        self.emit(0);
    }

    /// Emit `lui rd, imm`.
    pub fn emit_lui(&mut self, rd: u8, imm: u32)
        requires
            old(self).wf(),
            rd < 32,
            old(self).code().len() < MAX_CODE_WORDS,
        ensures
            final(self).wf(),
            same_tables(*final(self), *old(self)),
            final(self).code() == old(self).code().push(instr_word(RvInstr::Lui(rd, imm))),
            final(self).size() == old(self).size() + 4,
    {
        self.emit(enc_lui(rd, imm << 12u32));
    }

    /// Emit `add rd, rs1, rs2`.
    pub fn emit_add(&mut self, rd: u8, rs1: u8, rs2: u8)
        requires
            old(self).wf(),
            rd < 32,
            rs1 < 32,
            rs2 < 32,
            old(self).code().len() < MAX_CODE_WORDS,
        ensures
            final(self).wf(),
            same_tables(*final(self), *old(self)),
            final(self).code() == old(self).code().push(instr_word(RvInstr::Add(rd, rs1, rs2))),
            final(self).size() == old(self).size() + 4,
    {
        self.emit(enc_add(rd, rs1, rs2));
    }

    /// Emit `sub rd, rs1, rs2`.
    pub fn emit_sub(&mut self, rd: u8, rs1: u8, rs2: u8)
        requires
            old(self).wf(),
            rd < 32,
            rs1 < 32,
            rs2 < 32,
            old(self).code().len() < MAX_CODE_WORDS,
        ensures
            final(self).wf(),
            same_tables(*final(self), *old(self)),
            final(self).code() == old(self).code().push(instr_word(RvInstr::Sub(rd, rs1, rs2))),
            final(self).size() == old(self).size() + 4,
    {
        self.emit(enc_sub(rd, rs1, rs2));
    }

    /// Emit `subw rd, rs1, rs2`.
    pub fn emit_subw(&mut self, rd: u8, rs1: u8, rs2: u8)
        requires
            old(self).wf(),
            rd < 32,
            rs1 < 32,
            rs2 < 32,
            old(self).code().len() < MAX_CODE_WORDS,
        ensures
            final(self).wf(),
            same_tables(*final(self), *old(self)),
            final(self).code() == old(self).code().push(instr_word(RvInstr::Subw(rd, rs1, rs2))),
            final(self).size() == old(self).size() + 4,
    {
        self.emit(enc_subw(rd, rs1, rs2));
    }

    /// Emit `addi rd, rs1, imm`.
    pub fn emit_addi(&mut self, rd: u8, rs1: u8, imm: i32)
        requires
            old(self).wf(),
            rd < 32,
            rs1 < 32,
            in_i12(imm),
            old(self).code().len() < MAX_CODE_WORDS,
        ensures
            final(self).wf(),
            same_tables(*final(self), *old(self)),
            final(self).code() == old(self).code().push(instr_word(RvInstr::Addi(rd, rs1, imm))),
            final(self).size() == old(self).size() + 4,
    {
        self.emit(enc_addi(rd, rs1, #[verifier::truncate] (imm as u32)));
    }

    /// Emit `addiw rd, rs1, imm`.
    pub fn emit_addiw(&mut self, rd: u8, rs1: u8, imm: i32)
        requires
            old(self).wf(),
            rd < 32,
            rs1 < 32,
            in_i12(imm),
            old(self).code().len() < MAX_CODE_WORDS,
        ensures
            final(self).wf(),
            same_tables(*final(self), *old(self)),
            final(self).code() == old(self).code().push(instr_word(RvInstr::Addiw(rd, rs1, imm))),
            final(self).size() == old(self).size() + 4,
    {
        self.emit(enc_addiw(rd, rs1, #[verifier::truncate] (imm as u32)));
    }

    /// Emit `slli rd, rs, shamt`.
    pub fn emit_slli(&mut self, rd: u8, rs: u8, shamt: u8)
        requires
            old(self).wf(),
            rd < 32,
            rs < 32,
            shamt < 64,
            old(self).code().len() < MAX_CODE_WORDS,
        ensures
            final(self).wf(),
            same_tables(*final(self), *old(self)),
            final(self).code() == old(self).code().push(instr_word(RvInstr::Slli(rd, rs, shamt))),
            final(self).size() == old(self).size() + 4,
    {
        self.emit(enc_slli(rd, rs, shamt));
    }

    /// Emit `srli rd, rs, shamt`.
    pub fn emit_srli(&mut self, rd: u8, rs: u8, shamt: u8)
        requires
            old(self).wf(),
            rd < 32,
            rs < 32,
            shamt < 64,
            old(self).code().len() < MAX_CODE_WORDS,
        ensures
            final(self).wf(),
            same_tables(*final(self), *old(self)),
            final(self).code() == old(self).code().push(instr_word(RvInstr::Srli(rd, rs, shamt))),
            final(self).size() == old(self).size() + 4,
    {
        self.emit(enc_srli(rd, rs, shamt));
    }

    /// Emit `ld rd, imm(rs)`.
    pub fn emit_ld(&mut self, rd: u8, rs: u8, imm: i32)
        requires
            old(self).wf(),
            rd < 32,
            rs < 32,
            in_i12(imm),
            old(self).code().len() < MAX_CODE_WORDS,
        ensures
            final(self).wf(),
            same_tables(*final(self), *old(self)),
            final(self).code() == old(self).code().push(
                enc_ld(rd, rs, #[verifier::truncate] (imm as u32)),
            ),
            final(self).size() == old(self).size() + 4,
    {
        self.emit(enc_ld(rd, rs, #[verifier::truncate] (imm as u32)));
    }

    /// Emit `sd rs2, imm(rs1)`.
    pub fn emit_sd(&mut self, rs2: u8, rs1: u8, imm: i32)
        requires
            old(self).wf(),
            rs2 < 32,
            rs1 < 32,
            in_i12(imm),
            old(self).code().len() < MAX_CODE_WORDS,
        ensures
            final(self).wf(),
            same_tables(*final(self), *old(self)),
            final(self).code() == old(self).code().push(
                enc_sd(rs2, rs1, #[verifier::truncate] (imm as u32)),
            ),
            final(self).size() == old(self).size() + 4,
    {
        self.emit(enc_sd(rs2, rs1, #[verifier::truncate] (imm as u32)));
    }

    /// Emit `jal rd, imm` with byte displacement `imm`.
    pub fn emit_jal(&mut self, rd: u8, imm: i32)
        requires
            old(self).wf(),
            rd < 32,
            old(self).code().len() < MAX_CODE_WORDS,
        ensures
            final(self).wf(),
            same_tables(*final(self), *old(self)),
            final(self).code() == old(self).code().push(
                enc_jal(rd, #[verifier::truncate] (imm as u32)),
            ),
            final(self).size() == old(self).size() + 4,
    {
        self.emit(enc_jal(rd, #[verifier::truncate] (imm as u32)));
    }

    /// Emit `jalr rd, imm(rs)`.
    pub fn emit_jalr(&mut self, rd: u8, rs: u8, imm: i32)
        requires
            old(self).wf(),
            rd < 32,
            rs < 32,
            in_i12(imm),
            old(self).code().len() < MAX_CODE_WORDS,
        ensures
            final(self).wf(),
            same_tables(*final(self), *old(self)),
            final(self).code() == old(self).code().push(
                enc_jalr(rd, rs, #[verifier::truncate] (imm as u32)),
            ),
            final(self).size() == old(self).size() + 4,
    {
        self.emit(enc_jalr(rd, rs, #[verifier::truncate] (imm as u32)));
    }

    /// Emit the zero-extension idiom: clear the upper 32 bits of `rs` into
    /// `rd`.
    pub fn emit_zext_32(&mut self, rd: u8, rs: u8)
        requires
            old(self).wf(),
            rd < 32,
            rs < 32,
            old(self).code().len() + 2 <= MAX_CODE_WORDS,
        ensures
            final(self).wf(),
            same_tables(*final(self), *old(self)),
            final(self).code() == old(self).code() + words_of(zext_instrs(rd, rs)),
            final(self).size() == old(self).size() + 8,
    {
        self.emit_slli(rd, rs, 32);
        self.emit_srli(rd, rd, 32);
        proof {
            assert(self.code() =~= old(self).code() + words_of(zext_instrs(rd, rs)));
        }
    }

    /// Emit the minimal sequence that materializes the signed 64-bit value
    /// `imm` into `rd`: exactly the reference sequence `imm_instrs(rd, imm)`.
    pub fn emit_imm(&mut self, rd: u8, imm: i64)
        requires
            old(self).wf(),
            rd < 32,
            old(self).code().len() + 8 <= MAX_CODE_WORDS,
        ensures
            final(self).wf(),
            same_tables(*final(self), *old(self)),
            final(self).code() == old(self).code() + words_of(imm_instrs(rd, imm)),
            final(self).size() == old(self).size() + 4 * imm_instrs(rd, imm).len(),
        decreases abs1(imm),
    {
        proof {
            lemma_imm_instrs_len(rd, imm);
        }
        let hi: i64 = imm.wrapping_add(2048) >> 12u32;
        let low: u64 = (imm as u64) & 0xfff;
        proof {
            assert(imm.wrapping_add(2048) == crate::materialize::wrap_add_2048(imm))
                by (bit_vector);
            assert(hi == imm_hi(imm));
            assert(low <= 0xfff) by (bit_vector)
                requires
                    low == (imm as u64) & 0xfff,
            ;
        }
        let lo: i32 = if low >= 0x800 {
            ((low as i64) - 4096) as i32
        } else {
            low as i32
        };
        proof {
            assert(lo == imm_lo(imm));
        }
        if is_in_i32_range(imm) {
            if hi != 0 {
                self.emit_lui(rd, #[verifier::truncate] (hi as u32));
                self.emit_addiw(rd, rd, lo);
                proof {
                    assert(self.code() =~= old(self).code() + words_of(imm_instrs(rd, imm)));
                }
            } else {
                self.emit_addi(rd, RV_REG_ZERO, lo);
                proof {
                    assert(self.code() =~= old(self).code() + words_of(imm_instrs(rd, imm)));
                }
            }
        } else {
            proof {
                lemma_imm_step(imm);
            }
            let sh: u8 = (hi as u64).trailing_zeros() as u8;
            self.emit_imm(rd, hi >> (sh as u32));
            self.emit_slli(rd, rd, sh + 12);
            if lo != 0 {
                self.emit_addi(rd, rd, lo);
            }
            proof {
                let shs = vstd::std_specs::bits::u64_trailing_zeros(imm_hi(imm) as u64);
                let nxt = imm_hi(imm) >> shs;
                let tail: Seq<RvInstr> = if imm_lo(imm) != 0 {
                    seq![RvInstr::Addi(rd, rd, imm_lo(imm))]
                } else {
                    Seq::<RvInstr>::empty()
                };
                assert(imm_instrs(rd, imm) == imm_instrs(rd, nxt) + seq![
                    RvInstr::Slli(rd, rd, (shs + 12) as u8),
                ] + tail);
                lemma_words_of_app(
                    imm_instrs(rd, nxt) + seq![RvInstr::Slli(rd, rd, (shs + 12) as u8)],
                    tail,
                );
                lemma_words_of_app(
                    imm_instrs(rd, nxt),
                    seq![RvInstr::Slli(rd, rd, (shs + 12) as u8)],
                );
                assert(self.code() =~= old(self).code() + words_of(imm_instrs(rd, imm)));
            }
        }
    }

    /// Translate the double-word immediate load: record the PcMap entry
    /// anchored at the *first* slot of the pair (one less than the current
    /// index, which is at the second slot), then materialize the combined
    /// 64-bit value into the destination register.
    pub fn emit_load_imm64(&mut self, dst: u8, imm: i64)
        requires
            old(self).wf(),
            dst < BPF_MAX_REGS,
            old(self).pc() >= 1,
            old(self).code().len() + 8 <= MAX_CODE_WORDS,
        ensures
            final(self).wf(),
            final(self).insns() == old(self).insns(),
            final(self).pc() == old(self).pc(),
            final(self).source_lines() == old(self).source_lines(),
            final(self).call_sites() == old(self).call_sites(),
            final(self).exit_sites() == old(self).exit_sites(),
            final(self).pcmap() == old(self).pcmap().push(
                (((old(self).pc() - 1) as usize), old(self).size()),
            ),
            final(self).code() == old(self).code() + words_of(imm_instrs(rv_reg_of(dst), imm)),
            final(self).size() == old(self).size() + 4 * imm_instrs(rv_reg_of(dst), imm).len(),
    {
        let entry = (self.bpf_pc - 1, self.code_size);
        self.pc_map.push(entry);
        let rd = bpf_to_rv_reg(dst);
        self.emit_imm(rd, imm);
    }

    /// Translate an eBPF `CALL imm`: emit the six-word helper-call sequence
    /// and record its offset as a pending call-relocation site.
    pub fn emit_call(&mut self, imm: i32)
        requires
            old(self).wf(),
            0 <= imm < 256,
            old(self).code().len() + 6 <= MAX_CODE_WORDS,
        ensures
            final(self).wf(),
            final(self).insns() == old(self).insns(),
            final(self).pc() == old(self).pc(),
            final(self).source_lines() == old(self).source_lines(),
            final(self).pcmap() == old(self).pcmap(),
            final(self).exit_sites() == old(self).exit_sites(),
            final(self).call_sites() == old(self).call_sites().push(old(self).size()),
            final(self).code() == old(self).code() + call_words(imm),
            final(self).size() == old(self).size() + 24,
    {
        let rvoff = self.code_size;
        self.emit_placeholder("auipc t1, %hi(plt)");
        self.emit_placeholder("addi t1, t1, %lo(plt)");
        self.emit_addi(RV_REG_T1, RV_REG_T1, imm * 8);
        self.emit_ld(RV_REG_T2, RV_REG_T1, 0);
        self.emit_jalr(RV_REG_RA, RV_REG_T2, 0);
        self.emit_addi(bpf_to_rv_reg(BPF_REG_R0), RV_REG_A0, 0);
        self.plt_loads.push(rvoff);
        proof {
            assert(self.code() =~= old(self).code() + call_words(imm));
            let pl = self.plt_loads@;
            assert(pl == old(self).plt_loads@.push(rvoff));
            assert forall|k: int|
                0 <= k < pl.len() implies (#[trigger] pl[k]) % 4 == 0 && pl[k] + 8
                <= self.code_size by {
                if k < pl.len() - 1 {
                    assert(pl[k] == old(self).plt_loads@[k]);
                }
            }
            assert forall|k: int, l: int|
                0 <= k < l < pl.len() implies #[trigger] pl[k] + 8 <= #[trigger] pl[l] by {
                assert(pl[k] == old(self).plt_loads@[k]);
                if l < pl.len() - 1 {
                    assert(pl[l] == old(self).plt_loads@[l]);
                } else {
                    assert(pl[l] == rvoff);
                }
            }
            assert forall|k: int, l: int|
                0 <= k < self.exits@.len() && 0 <= l < pl.len() implies (#[trigger] self.exits@[k]
                + 4 <= #[trigger] pl[l] || pl[l] + 8 <= self.exits@[k]) by {
                if l < pl.len() - 1 {
                    assert(pl[l] == old(self).plt_loads@[l]);
                } else {
                    assert(pl[l] == rvoff);
                    assert(self.exits@[k] + 4 <= old(self).code_size);
                }
            }
        }
    }

    /// Translate an eBPF `EXIT`: emit one placeholder branch word and record
    /// its offset as a pending exit-relocation site.
    pub fn emit_exit(&mut self)
        requires
            old(self).wf(),
            old(self).code().len() < MAX_CODE_WORDS,
        ensures
            final(self).wf(),
            final(self).insns() == old(self).insns(),
            final(self).pc() == old(self).pc(),
            final(self).source_lines() == old(self).source_lines(),
            final(self).pcmap() == old(self).pcmap(),
            final(self).call_sites() == old(self).call_sites(),
            final(self).exit_sites() == old(self).exit_sites().push(old(self).size()),
            final(self).code() == old(self).code().push(0u32),
            final(self).size() == old(self).size() + 4,
    {
        let rvoff = self.code_size;
        self.emit_placeholder("j exit");
        self.exits.push(rvoff);
        proof {
            let ex = self.exits@;
            assert(ex == old(self).exits@.push(rvoff));
            assert forall|k: int|
                0 <= k < ex.len() implies (#[trigger] ex[k]) % 4 == 0 && ex[k] + 4
                <= self.code_size by {
                if k < ex.len() - 1 {
                    assert(ex[k] == old(self).exits@[k]);
                }
            }
            assert forall|k: int, l: int|
                0 <= k < l < ex.len() implies #[trigger] ex[k] + 4 <= #[trigger] ex[l] by {
                assert(ex[k] == old(self).exits@[k]);
                if l < ex.len() - 1 {
                    assert(ex[l] == old(self).exits@[l]);
                } else {
                    assert(ex[l] == rvoff);
                }
            }
            assert forall|k: int, l: int|
                0 <= k < ex.len() && 0 <= l < self.plt_loads@.len() implies (#[trigger] ex[k] + 4
                <= #[trigger] self.plt_loads@[l] || self.plt_loads@[l] + 8 <= ex[k]) by {
                if k < ex.len() - 1 {
                    assert(ex[k] == old(self).exits@[k]);
                } else {
                    assert(ex[k] == rvoff);
                    assert(self.plt_loads@[l] + 8 <= old(self).code_size);
                }
            }
        }
    }

    /// Overwrite one recorded exit placeholder with the unconditional jump
    /// to the single return point at `real_exit`.
    fn fix_exit(&mut self, rvoff: usize, real_exit: usize)
        requires
            old(self).wf(),
            rvoff % 4 == 0,
            rvoff + 4 <= old(self).code_size,
            rvoff <= real_exit,
            real_exit <= 4 * MAX_CODE_WORDS,
        ensures
            final(self).wf(),
            same_tables(*final(self), *old(self)),
            final(self).size() == old(self).size(),
            final(self).code() == old(self).code().update(
                rvoff as int / 4,
                enc_jal(RV_REG_ZERO, (real_exit - rvoff) as u32),
            ),
    {
        let i = rvoff / 4;
        let disp = real_exit - rvoff;
        self.code.set(i, enc_jal(RV_REG_ZERO, disp as u32));
    }

    /// Overwrite one recorded call site with the `auipc`+`addi` pair that
    /// computes the helper-table address `plt_offset` relative to the site.
    fn fix_plt_load(&mut self, rvoff: usize, plt_offset: usize)
        requires
            old(self).wf(),
            rvoff % 4 == 0,
            rvoff + 8 <= old(self).code_size,
            rvoff <= plt_offset,
            plt_offset <= 4 * MAX_CODE_WORDS + 16,
        ensures
            final(self).wf(),
            same_tables(*final(self), *old(self)),
            final(self).size() == old(self).size(),
            final(self).code() == old(self).code().update(
                rvoff as int / 4,
                call_patch_hi((plt_offset - rvoff) as i32),
            ).update(rvoff as int / 4 + 1, call_patch_lo((plt_offset - rvoff) as i32)),
    {
        let rel_off = (plt_offset - rvoff) as i32;
        let hi = (rel_off + 2048) >> 12u32;
        let lo = rel_off & 0xfff;
        proof {
            assert(0 <= rel_off & 0xfff < 4096) by (bit_vector);
        }
        let i = rvoff / 4;
        self.code.set(i, enc_auipc(RV_REG_T1, (#[verifier::truncate] (hi as u32)) << 12u32));
        self.code.set(i + 1, enc_addi(RV_REG_T1, RV_REG_T1, lo as u32));
    }

    /// Emit the function prologue: allocate the 56-byte frame and save the
    /// seven callee-saved registers to their fixed slots.
    pub fn emit_prologue(&mut self)
        requires
            old(self).wf(),
            old(self).code().len() + 8 <= MAX_CODE_WORDS,
        ensures
            final(self).wf(),
            same_tables(*final(self), *old(self)),
            final(self).code() == old(self).code() + prologue_words(),
            final(self).size() == old(self).size() + 32,
    {
        self.emit_addi(RV_REG_SP, RV_REG_SP, -56);
        self.emit_sd(RV_REG_RA, RV_REG_SP, 0);
        self.emit_sd(RV_REG_FP, RV_REG_SP, 8);
        self.emit_sd(RV_REG_S1, RV_REG_SP, 16);
        self.emit_sd(RV_REG_S2, RV_REG_SP, 24);
        self.emit_sd(RV_REG_S3, RV_REG_SP, 32);
        self.emit_sd(RV_REG_S4, RV_REG_SP, 40);
        self.emit_sd(RV_REG_S5, RV_REG_SP, 48);
        proof {
            assert(self.code() =~= old(self).code() + prologue_words());
        }
    }

    /// Emit the epilogue and run exit repair.  The epilogue's own start
    /// offset is the single return point: every recorded exit site is
    /// overwritten with an unconditional jump whose displacement is exactly
    /// the distance from the site to that point, every other word is kept,
    /// and the ten epilogue words follow.
    pub fn emit_epilogue(&mut self)
        requires
            old(self).wf(),
            old(self).code().len() + 10 <= MAX_CODE_WORDS,
        ensures
            final(self).wf(),
            final(self).insns() == old(self).insns(),
            final(self).pc() == old(self).pc(),
            final(self).source_lines() == old(self).source_lines(),
            final(self).pcmap() == old(self).pcmap(),
            final(self).call_sites() == old(self).call_sites(),
            final(self).exit_sites() == old(self).exit_sites(),
            final(self).code().len() == old(self).code().len() + 10,
            final(self).size() == old(self).size() + 40,
            forall|k: int|
                0 <= k < old(self).exit_sites().len() ==> final(self).code()[
                    #[trigger] old(self).exit_sites()[k] as int / 4
                ] == enc_jal(
                    RV_REG_ZERO,
                    (old(self).size() - old(self).exit_sites()[k]) as u32,
                ),
            forall|j: int|
                0 <= j < old(self).code().len() && !is_exit_patch_idx(old(self).exit_sites(), j)
                    ==> final(self).code()[j] == old(self).code()[j],
            final(self).code().subrange(
                old(self).code().len() as int,
                final(self).code().len() as int,
            ) == epilogue_words(),
    {
        let real_exit = self.code_size;
        let n = self.exits.len();
        let mut k: usize = 0;
        while k < n
            invariant
                k <= n,
                n == self.exits@.len(),
                self.wf(),
                self.insns() == old(self).insns(),
                self.pc() == old(self).pc(),
                self.source_lines() == old(self).source_lines(),
                self.pcmap() == old(self).pcmap(),
                self.call_sites() == old(self).call_sites(),
                self.exit_sites() == old(self).exit_sites(),
                self.size() == old(self).size(),
                self.code().len() == old(self).code().len(),
                real_exit == old(self).size(),
                forall|m: int|
                    0 <= m < k ==> self.code()[#[trigger] self.exits@[m] as int / 4] == enc_jal(
                        RV_REG_ZERO,
                        (real_exit - self.exits@[m]) as u32,
                    ),
                forall|j: int|
                    0 <= j < self.code().len() && (forall|m: int|
                        0 <= m < k ==> #[trigger] self.exits@[m] as int / 4 != j) ==> self.code()[j]
                        == old(self).code()[j],
            decreases n - k,
        {
            let off = self.exits[k];
            self.fix_exit(off, real_exit);
            k = k + 1;
            proof {
                assert forall|m: int, l: int|
                    0 <= m < l < k implies #[trigger] self.exits@[m] as int / 4
                    != #[trigger] self.exits@[l] as int / 4 by {
                    assert(self.exits@[m] + 4 <= self.exits@[l]);
                    assert(self.exits@[m] % 4 == 0 && self.exits@[l] % 4 == 0);
                }
            }
        }
        let epi_base: Ghost<JitContext> = Ghost(*self);
        self.emit_addi(RV_REG_A0, bpf_to_rv_reg(BPF_REG_R0), 0);
        self.emit_ld(RV_REG_S5, RV_REG_SP, 48);
        self.emit_ld(RV_REG_S4, RV_REG_SP, 40);
        self.emit_ld(RV_REG_S3, RV_REG_SP, 32);
        self.emit_ld(RV_REG_S2, RV_REG_SP, 24);
        self.emit_ld(RV_REG_S1, RV_REG_SP, 16);
        self.emit_ld(RV_REG_FP, RV_REG_SP, 8);
        self.emit_ld(RV_REG_RA, RV_REG_SP, 0);
        self.emit_addi(RV_REG_SP, RV_REG_SP, 56);
        self.emit_jalr(RV_REG_ZERO, RV_REG_RA, 0);
        proof {
            assert(self.code() =~= epi_base@.code() + epilogue_words());
            assert(self.code().subrange(
                old(self).code().len() as int,
                self.code().len() as int,
            ) =~= epilogue_words());
            assert forall|j: int|
                0 <= j < old(self).code().len() && !is_exit_patch_idx(old(self).exit_sites(), j)
                implies self.code()[j] == old(self).code()[j] by {
                assert(forall|m: int|
                    0 <= m < old(self).exits@.len() ==> #[trigger] old(self).exits@[m] as int / 4
                        != j);
                assert(epi_base@.code()[j] == old(self).code()[j]);
            }
        }
    }

    /// Pad to the 16-byte boundary, append the helper table (each address
    /// as two little-endian words), and run call repair: every recorded
    /// call site is overwritten with the `auipc`+`addi` pair addressing the
    /// table start, and every other word is kept.
    pub fn build_helper_fn_table(&mut self, helpers: &[u64])
        requires
            old(self).wf(),
            old(self).code().len() + 4 + 2 * helpers@.len() <= MAX_CODE_WORDS,
        ensures
            final(self).wf(),
            final(self).insns() == old(self).insns(),
            final(self).pc() == old(self).pc(),
            final(self).source_lines() == old(self).source_lines(),
            final(self).pcmap() == old(self).pcmap(),
            final(self).call_sites() == old(self).call_sites(),
            final(self).exit_sites() == old(self).exit_sites(),
            final(self).code().len() == round_up16(old(self).size() as int) / 4 + 2
                * helpers@.len(),
            round_up16(old(self).size() as int) % 16 == 0,
            old(self).size() <= round_up16(old(self).size() as int) < old(self).size() + 16,
            forall|j: int|
                0 <= j < old(self).code().len() && !is_call_patch_idx(old(self).call_sites(), j)
                    ==> final(self).code()[j] == old(self).code()[j],
            forall|j: int|
                old(self).code().len() <= j < round_up16(old(self).size() as int) / 4 ==> final(self).code()[j] == 0u32,
            forall|k: int|
                0 <= k < helpers@.len() ==> final(self).code()[round_up16(
                    old(self).size() as int,
                ) / 4 + 2 * k] == (#[trigger] helpers@[k]) as u32 && final(self).code()[round_up16(
                    old(self).size() as int,
                ) / 4 + 2 * k + 1] == (helpers@[k] >> 32u64) as u32,
            forall|k: int|
                0 <= k < old(self).call_sites().len() ==> final(self).code()[
                    #[trigger] old(self).call_sites()[k] as int / 4
                ] == call_patch_hi(
                    (round_up16(old(self).size() as int) - old(self).call_sites()[k]) as i32,
                ) && final(self).code()[old(self).call_sites()[k] as int / 4 + 1]
                    == call_patch_lo(
                    (round_up16(old(self).size() as int) - old(self).call_sites()[k]) as i32,
                ),
    {
        proof {
            lemma_round16(old(self).size() as int);
        }
        let ghost t = round_up16(old(self).size() as int);
        while self.code_size % 16 != 0
            invariant
                self.wf(),
                self.insns() == old(self).insns(),
                self.pc() == old(self).pc(),
                self.source_lines() == old(self).source_lines(),
                self.pcmap() == old(self).pcmap(),
                self.call_sites() == old(self).call_sites(),
                self.exit_sites() == old(self).exit_sites(),
                t == round_up16(old(self).size() as int),
                t % 16 == 0,
                t % 4 == 0,
                old(self).size() <= t < old(self).size() + 16,
                old(self).size() == 4 * old(self).code().len(),
                old(self).size() <= 4 * MAX_CODE_WORDS,
                old(self).code().len() + 4 + 2 * helpers@.len() <= MAX_CODE_WORDS,
                old(self).size() <= self.size() <= t,
                old(self).code().len() <= self.code().len(),
                self.code().subrange(0, old(self).code().len() as int) == old(self).code(),
                forall|j: int|
                    old(self).code().len() <= j < self.code().len() ==> self.code()[j] == 0u32,
            decreases t - self.size(),
        {
            proof {
                assert(self.size() < t);
                assert(old(self).code() =~= self.code().subrange(
                    0,
                    old(self).code().len() as int,
                ));
            }
            self.emit(0);
            proof {
                assert(self.code().subrange(0, old(self).code().len() as int) =~= old(
                    self,
                ).code());
            }
        }
        proof {
            assert(self.size() == t);
        }
        let plt_offset = self.code_size;
        let nh = helpers.len();
        let mut k: usize = 0;
        while k < nh
            invariant
                k <= nh,
                nh == helpers@.len(),
                self.wf(),
                self.insns() == old(self).insns(),
                self.pc() == old(self).pc(),
                self.source_lines() == old(self).source_lines(),
                self.pcmap() == old(self).pcmap(),
                self.call_sites() == old(self).call_sites(),
                self.exit_sites() == old(self).exit_sites(),
                plt_offset == t,
                t == round_up16(old(self).size() as int),
                t % 16 == 0,
                t % 4 == 0,
                old(self).size() <= t < old(self).size() + 16,
                old(self).size() == 4 * old(self).code().len(),
                old(self).size() <= 4 * MAX_CODE_WORDS,
                old(self).code().len() + 4 + 2 * helpers@.len() <= MAX_CODE_WORDS,
                self.code().len() == t / 4 + 2 * k,
                self.code().subrange(0, old(self).code().len() as int) == old(self).code(),
                forall|j: int|
                    old(self).code().len() <= j < t / 4 ==> self.code()[j] == 0u32,
                forall|m: int|
                    0 <= m < k ==> self.code()[t / 4 + 2 * m] == (#[trigger] helpers@[m]) as u32
                        && self.code()[t / 4 + 2 * m + 1] == (helpers@[m] >> 32u64) as u32,
            decreases nh - k,
        {
            let h = helpers[k];
            self.emit(#[verifier::truncate] (h as u32));
            self.emit(#[verifier::truncate] ((h >> 32u64) as u32));
            k = k + 1;
            proof {
                assert(self.code().subrange(0, old(self).code().len() as int) =~= old(
                    self,
                ).code());
            }
        }
        let ghost filled = *self;
        let np = self.plt_loads.len();
        let mut m: usize = 0;
        while m < np
            invariant
                m <= np,
                np == self.plt_loads@.len(),
                self.wf(),
                self.insns() == old(self).insns(),
                self.pc() == old(self).pc(),
                self.source_lines() == old(self).source_lines(),
                self.pcmap() == old(self).pcmap(),
                self.call_sites() == old(self).call_sites(),
                self.exit_sites() == old(self).exit_sites(),
                plt_offset == t,
                t == round_up16(old(self).size() as int),
                t % 16 == 0,
                t % 4 == 0,
                old(self).size() <= t < old(self).size() + 16,
                old(self).size() == 4 * old(self).code().len(),
                old(self).size() <= 4 * MAX_CODE_WORDS,
                self.code().len() == filled.code().len(),
                self.size() == filled.size(),
                filled.wf(),
                filled.call_sites() == old(self).call_sites(),
                forall|l: int|
                    0 <= l < filled.plt_loads@.len() ==> #[trigger] filled.plt_loads@[l] + 8 <= old(
                        self,
                    ).size(),
                forall|l: int|
                    0 <= l < m ==> self.code()[#[trigger] self.plt_loads@[l] as int / 4]
                        == call_patch_hi((t - self.plt_loads@[l]) as i32) && self.code()[
                        self.plt_loads@[l] as int / 4 + 1
                    ] == call_patch_lo((t - self.plt_loads@[l]) as i32),
                forall|j: int|
                    0 <= j < self.code().len() && (forall|l: int|
                        0 <= l < m ==> #[trigger] self.plt_loads@[l] as int / 4 != j
                            && self.plt_loads@[l] as int / 4 + 1 != j) ==> self.code()[j]
                        == filled.code()[j],
            decreases np - m,
        {
            let off = self.plt_loads[m];
            proof {
                assert(self.plt_loads@[m as int] + 8 <= old(self).size());
            }
            self.fix_plt_load(off, plt_offset);
            m = m + 1;
            proof {
                assert forall|a: int, b: int|
                    0 <= a < b < np implies #[trigger] self.plt_loads@[a] as int / 4 + 1
                    < #[trigger] self.plt_loads@[b] as int / 4 by {
                    assert(self.plt_loads@[a] + 8 <= self.plt_loads@[b]);
                    assert(self.plt_loads@[a] % 4 == 0 && self.plt_loads@[b] % 4 == 0);
                }
            }
        }
        proof {
            assert forall|j: int|
                0 <= j < old(self).code().len() && !is_call_patch_idx(old(self).call_sites(), j)
                implies self.code()[j] == old(self).code()[j] by {
                assert(forall|l: int|
                    0 <= l < np ==> #[trigger] self.plt_loads@[l] as int / 4 != j
                        && self.plt_loads@[l] as int / 4 + 1 != j);
                assert(self.code()[j] == filled.code()[j]);
                assert(filled.code()[j] == old(self).code()[j]);
            }
            assert forall|j: int|
                old(self).code().len() <= j < t / 4 implies self.code()[j] == 0u32 by {
                assert forall|l: int| 0 <= l < np implies #[trigger] self.plt_loads@[l] as int / 4
                    != j && self.plt_loads@[l] as int / 4 + 1 != j by {
                    assert(self.plt_loads@[l] + 8 <= old(self).size());
                    assert(self.plt_loads@[l] % 4 == 0);
                }
                assert(self.code()[j] == filled.code()[j]);
            }
            assert forall|k2: int|
                0 <= k2 < helpers@.len() implies self.code()[t / 4 + 2 * k2] == (
            #[trigger] helpers@[k2]) as u32 && self.code()[t / 4 + 2 * k2 + 1] == (helpers@[k2]
                >> 32u64) as u32 by {
                assert forall|l: int| 0 <= l < np implies #[trigger] self.plt_loads@[l] as int / 4
                    != t / 4 + 2 * k2 && self.plt_loads@[l] as int / 4 + 1 != t / 4 + 2 * k2
                    && self.plt_loads@[l] as int / 4 != t / 4 + 2 * k2 + 1
                    && self.plt_loads@[l] as int / 4 + 1 != t / 4 + 2 * k2 + 1 by {
                    assert(self.plt_loads@[l] + 8 <= old(self).size());
                    assert(self.plt_loads@[l] % 4 == 0);
                }
                assert(self.code()[t / 4 + 2 * k2] == filled.code()[t / 4 + 2 * k2]);
                assert(self.code()[t / 4 + 2 * k2 + 1] == filled.code()[t / 4 + 2 * k2 + 1]);
            }
        }
    }
}

/// The six words of a translated `CALL`: two placeholders for the patched
/// `auipc`+`addi` pair addressing the helper table, the advance to entry
/// `imm` (8 bytes per entry), the load of the helper address, the indirect
/// call, and the move of the native return value into eBPF `R0`.
pub open spec fn call_words(imm: i32) -> Seq<u32> {
    seq![
        0u32,
        0u32,
        instr_word(RvInstr::Addi(RV_REG_T1, RV_REG_T1, (8 * imm) as i32)),
        enc_ld(RV_REG_T2, RV_REG_T1, 0u32),
        enc_jalr(RV_REG_RA, RV_REG_T2, 0u32),
        instr_word(RvInstr::Addi(rv_reg_of(BPF_REG_R0), RV_REG_A0, 0i32)),
    ]
}

/// The prologue: allocate a 56-byte frame and save the return address, the
/// frame pointer and the five callee-saved registers the map uses.
pub open spec fn prologue_words() -> Seq<u32> {
    seq![
        instr_word(RvInstr::Addi(RV_REG_SP, RV_REG_SP, -56i32)),
        enc_sd(RV_REG_RA, RV_REG_SP, 0u32),
        enc_sd(RV_REG_FP, RV_REG_SP, 8u32),
        enc_sd(RV_REG_S1, RV_REG_SP, 16u32),
        enc_sd(RV_REG_S2, RV_REG_SP, 24u32),
        enc_sd(RV_REG_S3, RV_REG_SP, 32u32),
        enc_sd(RV_REG_S4, RV_REG_SP, 40u32),
        enc_sd(RV_REG_S5, RV_REG_SP, 48u32),
    ]
}

/// The epilogue: move eBPF `R0` into the native return register, restore
/// the seven saved registers in reverse order, release the frame, return.
pub open spec fn epilogue_words() -> Seq<u32> {
    seq![
        instr_word(RvInstr::Addi(RV_REG_A0, rv_reg_of(BPF_REG_R0), 0i32)),
        enc_ld(RV_REG_S5, RV_REG_SP, 48u32),
        enc_ld(RV_REG_S4, RV_REG_SP, 40u32),
        enc_ld(RV_REG_S3, RV_REG_SP, 32u32),
        enc_ld(RV_REG_S2, RV_REG_SP, 24u32),
        enc_ld(RV_REG_S1, RV_REG_SP, 16u32),
        enc_ld(RV_REG_FP, RV_REG_SP, 8u32),
        enc_ld(RV_REG_RA, RV_REG_SP, 0u32),
        instr_word(RvInstr::Addi(RV_REG_SP, RV_REG_SP, 56i32)),
        enc_jalr(RV_REG_ZERO, RV_REG_RA, 0u32),
    ]
}

/// The biased upper 20 bits of a PC-relative displacement, compensating for
/// the sign-extension of the low 12 bits.
pub open spec fn plt_hi(rel: i32) -> i32 {
    ((rel + 2048) as i32) >> 12u32
}

/// The raw low 12 bits of a PC-relative displacement.
pub open spec fn plt_lo(rel: i32) -> i32 {
    rel & 0xfff
}

/// The patched first word of a call site: `auipc t1, plt_hi(rel)`.
pub open spec fn call_patch_hi(rel: i32) -> u32 {
    enc_auipc(RV_REG_T1, ((plt_hi(rel) as u32) << 12u32))
}

/// The patched second word of a call site: `addi t1, t1, plt_lo(rel)`.
pub open spec fn call_patch_lo(rel: i32) -> u32 {
    enc_addi(RV_REG_T1, RV_REG_T1, (plt_lo(rel) as u32))
}

/// Relocation address reconstruction: the `auipc`/`addi` pair patched into
/// a call site computes exactly the displacement `rel` from the site to the
/// helper table, because the biased split satisfies
/// `plt_hi(rel) * 4096 + sign_extend_12(plt_lo(rel)) == rel`.
pub proof fn lemma_plt_split(rel: i32)
    requires
        0 <= rel < 0x4000_0000,
    ensures
        (plt_hi(rel) as int) * 4096 + (if plt_lo(rel) >= 0x800 {
            plt_lo(rel) - 4096
        } else {
            plt_lo(rel) as int
        }) == rel,
        0 <= plt_lo(rel) < 4096,
{
    assert((plt_hi(rel) as int) * 4096 + (if plt_lo(rel) >= 0x800 {
        plt_lo(rel) - 4096
    } else {
        plt_lo(rel) as int
    }) == rel && 0 <= plt_lo(rel) < 4096) by (bit_vector)
        requires
            0 <= rel < 0x4000_0000,
    ;
}

/// The least multiple of 16 at or above `x`.
pub open spec fn round_up16(x: int) -> int {
    ((x + 15) / 16) * 16
}

proof fn lemma_round16(x: int)
    requires
        x >= 0,
    ensures
        round_up16(x) % 16 == 0,
        x <= round_up16(x) < x + 16,
        round_up16(x) % 4 == 0,
{
    let q = (x + 15) / 16;
    assert(16 * q <= x + 15 && x + 15 < 16 * q + 16);
    assert(q * 16 % 16 == 0) by (nonlinear_arith);
    assert(q * 16 % 4 == 0) by (nonlinear_arith);
}

/// `j` is a code-buffer index rewritten by exit repair.
pub open spec fn is_exit_patch_idx(sites: Seq<usize>, j: int) -> bool {
    exists|k: int| 0 <= k < sites.len() && sites[k] as int / 4 == j
}

/// `j` is a code-buffer index rewritten by call repair.
pub open spec fn is_call_patch_idx(sites: Seq<usize>, j: int) -> bool {
    exists|k: int|
        0 <= k < sites.len() && (sites[k] as int / 4 == j || sites[k] as int / 4 + 1 == j)
}

// ---------------------------------------------------------------------------
// Decoding and the reference translation of the instruction stream.

/// The opcode byte of a 64-bit eBPF instruction word.
pub open spec fn op_of(insn: u64) -> u8 {
    (insn & 0xff) as u8
}

/// The 4-bit destination register field.
pub open spec fn dst_of(insn: u64) -> u8 {
    ((insn & 0x0f00) >> 8u64) as u8
}

/// The 4-bit source register field.
pub open spec fn src_of(insn: u64) -> u8 {
    ((insn & 0xf000) >> 12u64) as u8
}

/// The signed 16-bit offset field.
pub open spec fn off_of(insn: u64) -> i16 {
    (insn >> 16u64) as i16
}

/// The signed 32-bit immediate field.
pub open spec fn imm_of(insn: u64) -> i32 {
    (insn >> 32u64) as i32
}

/// The 64-bit value carried by a double-word immediate-load pair: the
/// first slot's immediate is the low 32 bits, zero-extended, and the
/// second slot's immediate the high 32 bits.
pub open spec fn dw_value(lo: i32, hi: i32) -> i64 {
    (((lo as u32) as u64) | ((hi as u64) << 32u64)) as i64
}

/// `op` is one of the four ADD forms.
pub open spec fn is_alu_add(op: u8) -> bool {
    op == ALU_X_ADD || op == ALU_K_ADD || op == ALU64_X_ADD || op == ALU64_K_ADD
}

/// `op` is one of the four SUB forms.
pub open spec fn is_alu_sub(op: u8) -> bool {
    op == ALU_X_SUB || op == ALU_K_SUB || op == ALU64_X_SUB || op == ALU64_K_SUB
}

/// `op` is one of the four MOV forms.
pub open spec fn is_alu_mov(op: u8) -> bool {
    op == ALU_X_MOV || op == ALU_K_MOV || op == ALU64_X_MOV || op == ALU64_K_MOV
}

/// The model instructions translating one ALU instruction: an immediate
/// operand is first materialized into the scratch register `t1` (MOV
/// materializes straight into the destination), and a 32-bit-width
/// operation is followed by the zero-extension idiom.
pub open spec fn alu_instrs(op: u8, dst: u8, src: u8, imm: i32) -> Seq<RvInstr> {
    let rd = rv_reg_of(dst);
    let rs = rv_reg_of(src);
    let is64 = (op & 7) == BPF_ALU64;
    let use_imm = (op & 8) == 0;
    let core: Seq<RvInstr> = if is_alu_add(op) {
        if use_imm {
            imm_instrs(RV_REG_T1, imm as i64) + seq![RvInstr::Add(rd, rd, RV_REG_T1)]
        } else {
            seq![RvInstr::Add(rd, rd, rs)]
        }
    } else if is_alu_sub(op) {
        if use_imm {
            imm_instrs(RV_REG_T1, imm as i64) + seq![RvInstr::Sub(rd, rd, RV_REG_T1)]
        } else if is64 {
            seq![RvInstr::Sub(rd, rd, rs)]
        } else {
            seq![RvInstr::Subw(rd, rd, rs)]
        }
    } else {
        if use_imm {
            imm_instrs(rd, imm as i64)
        } else {
            seq![RvInstr::Addi(rd, rs, 0i32)]
        }
    };
    if is64 {
        core
    } else {
        core + zext_instrs(rd, rd)
    }
}

/// The double-word decode state: the destination register and low half
/// recorded at the first slot of a pair, if the previous slot was one.
pub open spec fn pend_of(active: bool, dst: u8, lo: i32) -> Option<(u8, i32)> {
    if active {
        Some((dst, lo))
    } else {
        None
    }
}

/// The decode state after processing slot `i`.
pub open spec fn next_pending(insns: Seq<u64>, i: int, pending: Option<(u8, i32)>) -> Option<
    (u8, i32),
> {
    match pending {
        Some(_) => None,
        None => {
            if op_of(insns[i]) == LD_IMM_DW {
                Some((dst_of(insns[i]), imm_of(insns[i])))
            } else {
                None
            }
        },
    }
}

/// The code words slot `i` contributes.
pub open spec fn slot_words(insns: Seq<u64>, i: int, pending: Option<(u8, i32)>) -> Seq<u32> {
    match pending {
        Some((d, lo)) => words_of(imm_instrs(rv_reg_of(d), dw_value(lo, imm_of(insns[i])))),
        None => {
            let insn = insns[i];
            let op = op_of(insn);
            if op == LD_IMM_DW {
                Seq::empty()
            } else if is_alu_add(op) || is_alu_sub(op) || is_alu_mov(op) {
                words_of(alu_instrs(op, dst_of(insn), src_of(insn), imm_of(insn)))
            } else if op == JMP_K_CALL {
                call_words(imm_of(insn))
            } else if op == JMP_K_EXIT {
                seq![0u32]
            } else {
                Seq::empty()
            }
        },
    }
}

/// The exit-relocation sites slot `i` records, given its byte offset.
pub open spec fn slot_exits(insns: Seq<u64>, i: int, pending: Option<(u8, i32)>, off: usize)
    -> Seq<usize> {
    if pending is None && op_of(insns[i]) == JMP_K_EXIT {
        seq![off]
    } else {
        Seq::empty()
    }
}

/// The call-relocation sites slot `i` records, given its byte offset.
pub open spec fn slot_calls(insns: Seq<u64>, i: int, pending: Option<(u8, i32)>, off: usize)
    -> Seq<usize> {
    if pending is None && op_of(insns[i]) == JMP_K_CALL {
        seq![off]
    } else {
        Seq::empty()
    }
}

/// The PcMap entries slot `i` records: one per source instruction, anchored
/// at the first slot of a double-word pair.
pub open spec fn slot_pcmap(insns: Seq<u64>, i: int, pending: Option<(u8, i32)>, off: usize)
    -> Seq<(usize, usize)> {
    match pending {
        Some(_) => seq![(((i - 1) as usize), off)],
        None => {
            if op_of(insns[i]) == LD_IMM_DW {
                Seq::empty()
            } else {
                seq![((i as usize), off)]
            }
        },
    }
}

/// The reference translation of the stream from slot `i` on, given the
/// decode state and the byte offset at which slot `i`'s words land: the
/// emitted code words, the exit sites, the call sites, and the PcMap
/// entries, each in source order.
pub open spec fn trans(insns: Seq<u64>, i: int, pending: Option<(u8, i32)>, off: usize) -> (
    Seq<u32>,
    Seq<usize>,
    Seq<usize>,
    Seq<(usize, usize)>,
)
    decreases insns.len() - i,
{
    if i < 0 || i >= insns.len() {
        (
            Seq::<u32>::empty(),
            Seq::<usize>::empty(),
            Seq::<usize>::empty(),
            Seq::<(usize, usize)>::empty(),
        )
    } else {
        let w = slot_words(insns, i, pending);
        let rest = trans(
            insns,
            i + 1,
            next_pending(insns, i, pending),
            ((off + 4 * w.len()) as usize),
        );
        (
            w + rest.0,
            slot_exits(insns, i, pending, off) + rest.1,
            slot_calls(insns, i, pending, off) + rest.2,
            slot_pcmap(insns, i, pending, off) + rest.3,
        )
    }
}

/// The register fields and call immediates that the translation reads from
/// slot `i` on are in range.  Validating the stream is the caller's
/// responsibility; this is what the translator relies on.
pub open spec fn stream_ok(insns: Seq<u64>, i: int, pending: Option<(u8, i32)>) -> bool
    decreases insns.len() - i,
{
    if i < 0 || i >= insns.len() {
        true
    } else {
        let insn = insns[i];
        let op = op_of(insn);
        let here: bool = match pending {
            Some(_) => true,
            None => {
                if op == LD_IMM_DW {
                    dst_of(insn) < BPF_MAX_REGS as u8
                } else if op == JMP_K_CALL {
                    dst_of(insn) < BPF_MAX_REGS as u8 && src_of(insn) < BPF_MAX_REGS as u8 && 0
                        <= imm_of(insn) < 256
                } else {
                    dst_of(insn) < BPF_MAX_REGS as u8 && src_of(insn) < BPF_MAX_REGS as u8
                }
            },
        };
        here && stream_ok(insns, i + 1, next_pending(insns, i, pending))
    }
}

/// Every relocation site the translation records lies inside the region of
/// code it emits, on a word boundary: an exit site is one placeholder word,
/// a call site two.
proof fn lemma_trans_sites(insns: Seq<u64>, i: int, pending: Option<(u8, i32)>, off: usize)
    requires
        0 <= i <= insns.len(),
        off % 4 == 0,
        off + 4 * trans(insns, i, pending, off).0.len() <= usize::MAX,
    ensures
        forall|k: int|
            0 <= k < trans(insns, i, pending, off).1.len() ==> off <= #[trigger] trans(
                insns,
                i,
                pending,
                off,
            ).1[k] && trans(insns, i, pending, off).1[k] % 4 == 0 && trans(
                insns,
                i,
                pending,
                off,
            ).1[k] + 4 <= off + 4 * trans(insns, i, pending, off).0.len(),
        forall|k: int|
            0 <= k < trans(insns, i, pending, off).2.len() ==> off <= #[trigger] trans(
                insns,
                i,
                pending,
                off,
            ).2[k] && trans(insns, i, pending, off).2[k] % 4 == 0 && trans(
                insns,
                i,
                pending,
                off,
            ).2[k] + 8 <= off + 4 * trans(insns, i, pending, off).0.len(),
    decreases insns.len() - i,
{
    if i < insns.len() {
        let w = slot_words(insns, i, pending);
        let off2 = ((off + 4 * w.len()) as usize);
        assert(off2 == off + 4 * w.len());
        lemma_trans_sites(insns, i + 1, next_pending(insns, i, pending), off2);
        let t = trans(insns, i, pending, off);
        let rest = trans(insns, i + 1, next_pending(insns, i, pending), off2);
        let se = slot_exits(insns, i, pending, off);
        let sc = slot_calls(insns, i, pending, off);
        assert forall|k: int|
            0 <= k < t.1.len() implies off <= #[trigger] t.1[k] && t.1[k] % 4 == 0 && t.1[k] + 4
            <= off + 4 * t.0.len() by {
            if k < se.len() {
                assert(t.1[k] == off);
                assert(w.len() >= 1);
            } else {
                assert(t.1[k] == rest.1[k - se.len()]);
            }
        }
        assert forall|k: int|
            0 <= k < t.2.len() implies off <= #[trigger] t.2[k] && t.2[k] % 4 == 0 && t.2[k] + 8
            <= off + 4 * t.0.len() by {
            if k < sc.len() {
                assert(t.2[k] == off);
                assert(w.len() >= 6);
            } else {
                assert(t.2[k] == rest.2[k - sc.len()]);
            }
        }
    }
}

/// The translation emits at most eleven words per source slot.
proof fn lemma_trans_len(insns: Seq<u64>, i: int, pending: Option<(u8, i32)>, off: usize)
    requires
        0 <= i <= insns.len(),
    ensures
        trans(insns, i, pending, off).0.len() <= 11 * (insns.len() - i),
    decreases insns.len() - i,
{
    if i < insns.len() {
        let w = slot_words(insns, i, pending);
        assert(w.len() <= 11) by {
            lemma_slot_words_len(insns, i, pending);
        }
        lemma_trans_len(insns, i + 1, next_pending(insns, i, pending), ((off + 4 * w.len()) as usize));
    }
}

/// One slot contributes at most eleven words.
proof fn lemma_slot_words_len(insns: Seq<u64>, i: int, pending: Option<(u8, i32)>)
    requires
        0 <= i < insns.len(),
    ensures
        slot_words(insns, i, pending).len() <= 11,
{
    match pending {
        Some((d, lo)) => {
            lemma_imm_instrs_len(rv_reg_of(d), dw_value(lo, imm_of(insns[i])));
        },
        None => {
            let insn = insns[i];
            let op = op_of(insn);
            if is_alu_add(op) || is_alu_sub(op) || is_alu_mov(op) {
                lemma_imm_instrs_len(RV_REG_T1, imm_of(insn) as i64);
                lemma_imm_instrs_len(rv_reg_of(dst_of(insn)), imm_of(insn) as i64);
            }
        },
    }
}

/// Splitting a concatenation at a step: if the whole is the part done so
/// far followed by one slot's piece and a remainder, then after appending
/// the piece the whole is what is done followed by the remainder.
proof fn lemma_chain<T>(total: Seq<T>, done_pre: Seq<T>, piece: Seq<T>, rest: Seq<T>, done_post: Seq<T>)
    requires
        total == done_pre + (piece + rest),
        done_post == done_pre + piece,
    ensures
        total == done_post + rest,
{
    assert(done_pre + (piece + rest) =~= (done_pre + piece) + rest);
}

/// One forward pass over the instruction stream: translate each
/// instruction in source order, consuming the second slot of a double-word
/// load as part of its first, producing exactly the reference translation
/// `trans` of the stream.
fn emit_instructions(ctx: &mut JitContext)
    requires
        old(ctx).wf(),
        stream_ok(old(ctx).insns(), 0, None),
        old(ctx).code().len() + 11 * old(ctx).insns().len() <= MAX_CODE_WORDS,
    ensures
        final(ctx).wf(),
        final(ctx).insns() == old(ctx).insns(),
        final(ctx).source_lines() == old(ctx).source_lines(),
        final(ctx).code() == old(ctx).code() + trans(
            old(ctx).insns(),
            0,
            None,
            old(ctx).size(),
        ).0,
        final(ctx).exit_sites() == old(ctx).exit_sites() + trans(
            old(ctx).insns(),
            0,
            None,
            old(ctx).size(),
        ).1,
        final(ctx).call_sites() == old(ctx).call_sites() + trans(
            old(ctx).insns(),
            0,
            None,
            old(ctx).size(),
        ).2,
        final(ctx).pcmap() == old(ctx).pcmap() + trans(
            old(ctx).insns(),
            0,
            None,
            old(ctx).size(),
        ).3,
{
    let ghost insns0 = old(ctx).insns();
    let ghost t0 = trans(insns0, 0, None, old(ctx).size());
    let mut prev_imm: i32 = 0;
    let mut prev_dst: u8 = 0;
    let mut is_load_imm64: bool = false;
    let n = ctx.bpf_insns.len();
    let mut i: usize = 0;
    while i < n
        invariant
            i <= n,
            n == insns0.len(),
            insns0 == old(ctx).insns(),
            t0 == trans(insns0, 0, None, old(ctx).size()),
            ctx.wf(),
            ctx.insns() == insns0,
            ctx.source_lines() == old(ctx).source_lines(),
            old(ctx).code().len() + 11 * n <= MAX_CODE_WORDS,
            ctx.code().len() <= old(ctx).code().len() + 11 * i,
            stream_ok(insns0, i as int, pend_of(is_load_imm64, prev_dst, prev_imm)),
            is_load_imm64 ==> i >= 1 && prev_dst < BPF_MAX_REGS as u8,
            old(ctx).code() + t0.0 == ctx.code() + trans(
                insns0,
                i as int,
                pend_of(is_load_imm64, prev_dst, prev_imm),
                ctx.size(),
            ).0,
            old(ctx).exit_sites() + t0.1 == ctx.exit_sites() + trans(
                insns0,
                i as int,
                pend_of(is_load_imm64, prev_dst, prev_imm),
                ctx.size(),
            ).1,
            old(ctx).call_sites() + t0.2 == ctx.call_sites() + trans(
                insns0,
                i as int,
                pend_of(is_load_imm64, prev_dst, prev_imm),
                ctx.size(),
            ).2,
            old(ctx).pcmap() + t0.3 == ctx.pcmap() + trans(
                insns0,
                i as int,
                pend_of(is_load_imm64, prev_dst, prev_imm),
                ctx.size(),
            ).3,
        decreases n - i,
    {
        let ghost pend = pend_of(is_load_imm64, prev_dst, prev_imm);
        let ghost szpre = ctx.size();
        let ghost codepre = ctx.code();
        let ghost exitspre = ctx.exit_sites();
        let ghost callspre = ctx.call_sites();
        let ghost mappre = ctx.pcmap();
        let insn = ctx.bpf_insns[i];
        let op = #[verifier::truncate] ((insn & 0xff) as u8);
        let dst = #[verifier::truncate] (((insn & 0x0f00) >> 8u64) as u8);
        let src = #[verifier::truncate] (((insn & 0xf000) >> 12u64) as u8);
        let imm = #[verifier::truncate] ((insn >> 32u64) as i32);
        ctx.bpf_pc = i;
        proof {
            assert(op == op_of(insns0[i as int]));
            assert(dst == dst_of(insns0[i as int]));
            assert(src == src_of(insns0[i as int]));
            assert(imm == imm_of(insns0[i as int]));
            lemma_slot_words_len(insns0, i as int, pend);
        }
        if is_load_imm64 {
            is_load_imm64 = false;
            let imm64: u64 = ((prev_imm as u32) as u64) | ((imm as u64) << 32u64);
            ctx.emit_load_imm64(prev_dst, #[verifier::truncate] (imm64 as i64));
            proof {
                assert(imm64 as i64 == dw_value(prev_imm, imm_of(insns0[i as int])));
                assert(ctx.code() == codepre + slot_words(insns0, i as int, pend));
                assert(ctx.pcmap() =~= mappre + slot_pcmap(insns0, i as int, pend, szpre));
                assert(ctx.exit_sites() =~= exitspre + slot_exits(insns0, i as int, pend, szpre));
                assert(ctx.call_sites() =~= callspre + slot_calls(insns0, i as int, pend, szpre));
            }
        } else if op == LD_IMM_DW {
            prev_imm = imm;
            prev_dst = dst;
            is_load_imm64 = true;
            proof {
                assert(ctx.code() =~= codepre + slot_words(insns0, i as int, pend));
                assert(ctx.pcmap() =~= mappre + slot_pcmap(insns0, i as int, pend, szpre));
                assert(ctx.exit_sites() =~= exitspre + slot_exits(insns0, i as int, pend, szpre));
                assert(ctx.call_sites() =~= callspre + slot_calls(insns0, i as int, pend, szpre));
            }
        } else {
            let entry = (i, ctx.code_size);
            ctx.pc_map.push(entry);
            let rd = bpf_to_rv_reg(dst);
            let mut rs = bpf_to_rv_reg(src);
            let is64 = (op & 0b111) == BPF_ALU64;
            let use_imm = (op & 8) == 0;
            if op == ALU_X_ADD || op == ALU_K_ADD || op == ALU64_X_ADD || op == ALU64_K_ADD {
                proof {
                    lemma_imm_instrs_len(RV_REG_T1, imm as i64);
                }
                if use_imm {
                    ctx.emit_imm(RV_REG_T1, imm as i64);
                    rs = RV_REG_T1;
                }
                ctx.emit_add(rd, rd, rs);
                if !is64 {
                    ctx.emit_zext_32(rd, rd);
                }
                proof {
                    let core = alu_instrs(op, dst, src, imm);
                    if use_imm {
                        lemma_words_of_app(
                            imm_instrs(RV_REG_T1, imm as i64),
                            seq![RvInstr::Add(rd, rd, RV_REG_T1)],
                        );
                        if !is64 {
                            lemma_words_of_app(
                                imm_instrs(RV_REG_T1, imm as i64) + seq![
                                    RvInstr::Add(rd, rd, RV_REG_T1),
                                ],
                                zext_instrs(rd, rd),
                            );
                        }
                    } else {
                        if !is64 {
                            lemma_words_of_app(seq![RvInstr::Add(rd, rd, rs)], zext_instrs(rd, rd));
                        }
                    }
                    assert(ctx.code() =~= codepre + slot_words(insns0, i as int, pend));
                }
            } else if op == ALU_X_SUB || op == ALU_K_SUB || op == ALU64_X_SUB || op == ALU64_K_SUB {
                proof {
                    lemma_imm_instrs_len(RV_REG_T1, imm as i64);
                }
                if use_imm {
                    ctx.emit_imm(RV_REG_T1, imm as i64);
                    ctx.emit_sub(rd, rd, RV_REG_T1);
                } else {
                    if is64 {
                        ctx.emit_sub(rd, rd, rs);
                    } else {
                        ctx.emit_subw(rd, rd, rs);
                    }
                }
                if !is64 {
                    ctx.emit_zext_32(rd, rd);
                }
                proof {
                    if use_imm {
                        lemma_words_of_app(
                            imm_instrs(RV_REG_T1, imm as i64),
                            seq![RvInstr::Sub(rd, rd, RV_REG_T1)],
                        );
                        if !is64 {
                            lemma_words_of_app(
                                imm_instrs(RV_REG_T1, imm as i64) + seq![
                                    RvInstr::Sub(rd, rd, RV_REG_T1),
                                ],
                                zext_instrs(rd, rd),
                            );
                        }
                    } else {
                        if !is64 {
                            lemma_words_of_app(
                                if is64 {
                                    seq![RvInstr::Sub(rd, rd, rs)]
                                } else {
                                    seq![RvInstr::Subw(rd, rd, rs)]
                                },
                                zext_instrs(rd, rd),
                            );
                        }
                    }
                    assert(ctx.code() =~= codepre + slot_words(insns0, i as int, pend));
                }
            } else if op == ALU_X_MOV || op == ALU_K_MOV || op == ALU64_X_MOV || op == ALU64_K_MOV {
                proof {
                    lemma_imm_instrs_len(rv_reg_of(dst), imm as i64);
                }
                if use_imm {
                    ctx.emit_imm(rd, imm as i64);
                } else {
                    ctx.emit_addi(rd, rs, 0);
                }
                if !is64 {
                    ctx.emit_zext_32(rd, rd);
                }
                proof {
                    if !is64 {
                        lemma_words_of_app(
                            if use_imm {
                                imm_instrs(rd, imm as i64)
                            } else {
                                seq![RvInstr::Addi(rd, rs, 0i32)]
                            },
                            zext_instrs(rd, rd),
                        );
                    }
                    assert(ctx.code() =~= codepre + slot_words(insns0, i as int, pend));
                }
            } else if op == JMP_K_CALL {
                ctx.emit_call(imm);
                proof {
                    assert(ctx.code() =~= codepre + slot_words(insns0, i as int, pend));
                }
            } else if op == JMP_K_EXIT {
                ctx.emit_exit();
                proof {
                    assert(ctx.code() =~= codepre + slot_words(insns0, i as int, pend));
                }
            } else {
                proof {
                    assert(ctx.code() =~= codepre + slot_words(insns0, i as int, pend));
                }
            }
            proof {
                assert(ctx.pcmap() =~= mappre + slot_pcmap(insns0, i as int, pend, szpre));
                assert(ctx.exit_sites() =~= exitspre + slot_exits(insns0, i as int, pend, szpre));
                assert(ctx.call_sites() =~= callspre + slot_calls(insns0, i as int, pend, szpre));
            }
        }
        proof {
            let pnew = pend_of(is_load_imm64, prev_dst, prev_imm);
            assert(pnew == next_pending(insns0, i as int, pend));
            let w = slot_words(insns0, i as int, pend);
            assert(ctx.size() == ((szpre + 4 * w.len()) as usize));
            let rest = trans(insns0, i as int + 1, pnew, ctx.size());
            assert(trans(insns0, i as int, pend, szpre).0 == w + rest.0);
            lemma_chain(old(ctx).code() + t0.0, codepre, w, rest.0, ctx.code());
            lemma_chain(
                old(ctx).exit_sites() + t0.1,
                exitspre,
                slot_exits(insns0, i as int, pend, szpre),
                rest.1,
                ctx.exit_sites(),
            );
            lemma_chain(
                old(ctx).call_sites() + t0.2,
                callspre,
                slot_calls(insns0, i as int, pend, szpre),
                rest.2,
                ctx.call_sites(),
            );
            lemma_chain(
                old(ctx).pcmap() + t0.3,
                mappre,
                slot_pcmap(insns0, i as int, pend, szpre),
                rest.3,
                ctx.pcmap(),
            );
        }
        i = i + 1;
    }
    proof {
        let pend = pend_of(is_load_imm64, prev_dst, prev_imm);
        let tr = trans(insns0, n as int, pend, ctx.size());
        assert(tr.0 =~= Seq::<u32>::empty());
        assert(tr.1 =~= Seq::<usize>::empty());
        assert(tr.2 =~= Seq::<usize>::empty());
        assert(tr.3 =~= Seq::<(usize, usize)>::empty());
        assert(ctx.code() =~= ctx.code() + tr.0);
        assert(ctx.exit_sites() =~= ctx.exit_sites() + tr.1);
        assert(ctx.call_sites() =~= ctx.call_sites() + tr.2);
        assert(ctx.pcmap() =~= ctx.pcmap() + tr.3);
    }
}

/// The translated body: the code words of the instruction stream, which the
/// driver places right after the 32-byte prologue.
pub open spec fn body_words(insns: Seq<u64>) -> Seq<u32> {
    trans(insns, 0, None, 32usize).0
}

/// The exit-relocation sites of a compiled program.
pub open spec fn prog_exits(insns: Seq<u64>) -> Seq<usize> {
    trans(insns, 0, None, 32usize).1
}

/// The call-relocation sites of a compiled program.
pub open spec fn prog_calls(insns: Seq<u64>) -> Seq<usize> {
    trans(insns, 0, None, 32usize).2
}

/// The PcMap of a compiled program.
pub open spec fn prog_pcmap(insns: Seq<u64>) -> Seq<(usize, usize)> {
    trans(insns, 0, None, 32usize).3
}

/// The byte offset of the epilogue: the single return point every exit
/// branch targets.
pub open spec fn epilogue_offset(insns: Seq<u64>) -> int {
    32 + 4 * body_words(insns).len() as int
}

/// The byte offset of the helper table: the end of the code rounded up to
/// the 16-byte boundary.
pub open spec fn table_offset(insns: Seq<u64>) -> int {
    round_up16(epilogue_offset(insns) + 40)
}

/// Compile an eBPF program: emit the prologue, translate the instruction
/// stream in one forward pass, emit the epilogue (resolving the exit
/// relocations against its start offset), and append the 16-byte-aligned
/// helper table (resolving the call relocations against its offset).
///
/// The contract pins the whole output down: the buffer is the prologue, the
/// reference translation of the stream, the epilogue, zero padding, and the
/// helper addresses in little-endian word pairs, except that each exit site
/// holds the jump to the epilogue and each call site the `auipc`+`addi`
/// pair addressing the table.
#[verifier::rlimit(80)]
pub fn compile(ctx: &mut JitContext, helpers: &[u64])
    requires
        old(ctx).wf(),
        old(ctx).code().len() == 0,
        old(ctx).exit_sites().len() == 0,
        old(ctx).call_sites().len() == 0,
        old(ctx).pcmap().len() == 0,
        stream_ok(old(ctx).insns(), 0, None),
        22 + 11 * old(ctx).insns().len() + 2 * helpers@.len() <= MAX_CODE_WORDS,
    ensures
        final(ctx).wf(),
        final(ctx).insns() == old(ctx).insns(),
        final(ctx).source_lines() == old(ctx).source_lines(),
        final(ctx).exit_sites() == prog_exits(old(ctx).insns()),
        final(ctx).call_sites() == prog_calls(old(ctx).insns()),
        final(ctx).pcmap() == prog_pcmap(old(ctx).insns()),
        final(ctx).code().len() == table_offset(old(ctx).insns()) / 4 + 2 * helpers@.len(),
        table_offset(old(ctx).insns()) % 16 == 0,
        epilogue_offset(old(ctx).insns()) + 40 <= table_offset(old(ctx).insns())
            < epilogue_offset(old(ctx).insns()) + 56,
        forall|j: int|
            0 <= j < table_offset(old(ctx).insns()) / 4 && !is_exit_patch_idx(
                prog_exits(old(ctx).insns()),
                j,
            ) && !is_call_patch_idx(prog_calls(old(ctx).insns()), j) ==> final(ctx).code()[j] == (
            if j < 8 {
                prologue_words()[j]
            } else if j < 8 + body_words(old(ctx).insns()).len() {
                body_words(old(ctx).insns())[j - 8]
            } else if j < 18 + body_words(old(ctx).insns()).len() {
                epilogue_words()[j - 8 - body_words(old(ctx).insns()).len()]
            } else {
                0u32
            }),
        forall|k: int|
            0 <= k < prog_exits(old(ctx).insns()).len() ==> 32 <= #[trigger] prog_exits(
                old(ctx).insns(),
            )[k] && prog_exits(old(ctx).insns())[k] % 4 == 0 && prog_exits(old(ctx).insns())[k]
                + 4 <= epilogue_offset(old(ctx).insns()),
        forall|k: int|
            0 <= k < prog_calls(old(ctx).insns()).len() ==> 32 <= #[trigger] prog_calls(
                old(ctx).insns(),
            )[k] && prog_calls(old(ctx).insns())[k] % 4 == 0 && prog_calls(old(ctx).insns())[k]
                + 8 <= epilogue_offset(old(ctx).insns()),
        forall|k: int|
            0 <= k < prog_exits(old(ctx).insns()).len() ==> final(ctx).code()[
                #[trigger] prog_exits(old(ctx).insns())[k] as int / 4
            ] == enc_jal(
                RV_REG_ZERO,
                (epilogue_offset(old(ctx).insns()) - prog_exits(old(ctx).insns())[k]) as u32,
            ),
        forall|k: int|
            0 <= k < prog_calls(old(ctx).insns()).len() ==> final(ctx).code()[
                #[trigger] prog_calls(old(ctx).insns())[k] as int / 4
            ] == call_patch_hi(
                (table_offset(old(ctx).insns()) - prog_calls(old(ctx).insns())[k]) as i32,
            ) && final(ctx).code()[prog_calls(old(ctx).insns())[k] as int / 4 + 1]
                == call_patch_lo(
                (table_offset(old(ctx).insns()) - prog_calls(old(ctx).insns())[k]) as i32,
            ),
        forall|k: int|
            0 <= k < helpers@.len() ==> final(ctx).code()[table_offset(old(ctx).insns()) / 4 + 2
                * k] == (#[trigger] helpers@[k]) as u32 && final(ctx).code()[table_offset(
                old(ctx).insns(),
            ) / 4 + 2 * k + 1] == (helpers@[k] >> 32u64) as u32,
{
    let ghost insns0 = old(ctx).insns();
    ctx.emit_prologue();
    proof {
        assert(ctx.code() =~= prologue_words());
        assert(ctx.size() == 32);
    }
    emit_instructions(ctx);
    let ghost translated = *ctx;
    proof {
        lemma_trans_len(insns0, 0, None, 32);
        lemma_trans_sites(insns0, 0, None, 32);
        assert(ctx.code() =~= prologue_words() + body_words(insns0));
        assert(ctx.exit_sites() =~= prog_exits(insns0));
        assert(ctx.call_sites() =~= prog_calls(insns0));
        assert(ctx.pcmap() =~= prog_pcmap(insns0));
        assert(ctx.size() == epilogue_offset(insns0));
    }
    ctx.emit_epilogue();
    let ghost patched = *ctx;
    ctx.build_helper_fn_table(helpers);
    proof {
        let ghost t = table_offset(insns0);
        assert(t == round_up16(patched.size() as int));
        // Exit-patched words and the base layout survive call repair: every
        // exit site is disjoint from every call site's two words.
        assert forall|j: int|
            0 <= j < t / 4 && !is_exit_patch_idx(prog_exits(insns0), j) && !is_call_patch_idx(
                prog_calls(insns0),
                j,
            ) implies ctx.code()[j] == (if j < 8 {
            prologue_words()[j]
        } else if j < 8 + body_words(insns0).len() {
            body_words(insns0)[j - 8]
        } else if j < 18 + body_words(insns0).len() {
            epilogue_words()[j - 8 - body_words(insns0).len()]
        } else {
            0u32
        }) by {
            if j < patched.code().len() {
                assert(ctx.code()[j] == patched.code()[j]);
                if j < translated.code().len() {
                    assert(patched.code()[j] == translated.code()[j]);
                } else {
                    assert(patched.code().subrange(
                        translated.code().len() as int,
                        patched.code().len() as int,
                    ) == epilogue_words());
                    assert(patched.code()[j] == epilogue_words()[j
                        - translated.code().len() as int]);
                }
            } else {
                assert(ctx.code()[j] == 0u32);
            }
        }
        assert forall|k: int|
            0 <= k < prog_exits(insns0).len() implies ctx.code()[
            #[trigger] prog_exits(insns0)[k] as int / 4
        ] == enc_jal(
            RV_REG_ZERO,
            (epilogue_offset(insns0) - prog_exits(insns0)[k]) as u32,
        ) by {
            let e = prog_exits(insns0)[k] as int;
            assert(patched.code()[e / 4] == enc_jal(
                RV_REG_ZERO,
                (translated.size() - prog_exits(insns0)[k]) as u32,
            ));
            assert forall|l: int|
                0 <= l < prog_calls(insns0).len() implies #[trigger] prog_calls(insns0)[l] as int
                / 4 != e / 4 && prog_calls(insns0)[l] as int / 4 + 1 != e / 4 by {
                let p = prog_calls(insns0)[l] as int;
                assert(translated.exit_sites()[k] + 4 <= translated.call_sites()[l]
                    || translated.call_sites()[l] + 8 <= translated.exit_sites()[k]);
                assert(e % 4 == 0 && p % 4 == 0);
            }
            assert(!is_call_patch_idx(prog_calls(insns0), e / 4));
            assert(ctx.code()[e / 4] == patched.code()[e / 4]);
        }
    }
}

/// Everything but the code buffer is unchanged: the instruction stream, the
/// translation-loop index, the diagnostic text, and the three bookkeeping
/// tables.
pub open spec fn same_tables(a: JitContext, b: JitContext) -> bool {
    &&& a.insns() == b.insns()
    &&& a.pc() == b.pc()
    &&& a.source_lines() == b.source_lines()
    &&& a.pcmap() == b.pcmap()
    &&& a.call_sites() == b.call_sites()
    &&& a.exit_sites() == b.exit_sites()
}

} // verus!

