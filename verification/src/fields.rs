//! The shared instruction-set definition: bit-field layouts of the five
//! instruction formats (R, I, S, B, U) and the two control-transfer formats
//! (jal, jalr), as spec-level functions, in both directions.
//!
//! The encoder builds words with the `encode_*` functions and the executor
//! reads them back with the `*_of` extractors; the `lemma_decode_encode_*`
//! proofs show that the two directions agree, field by field.

use vstd::prelude::*;

verus! {

// ---------------------------------------------------------------------------
// Field extraction (decode direction). Bit positions are numbered from the
// least-significant bit = 0; the low 7 bits are always the opcode field.
// ---------------------------------------------------------------------------

pub open spec fn opcode_of(w: u32) -> u32 {
    w & 0x7f
}

pub open spec fn rd_of(w: u32) -> u32 {
    (w >> 7) & 0x1f
}

pub open spec fn funct3_of(w: u32) -> u32 {
    (w >> 12) & 0x7
}

pub open spec fn rs1_of(w: u32) -> u32 {
    (w >> 15) & 0x1f
}

pub open spec fn rs2_of(w: u32) -> u32 {
    (w >> 20) & 0x1f
}

pub open spec fn funct7_of(w: u32) -> u32 {
    (w >> 25) & 0x7f
}

/// The 12-bit I-type immediate, bits 31:20, not yet sign-extended.
pub open spec fn imm_i_of(w: u32) -> u32 {
    (w >> 20) & 0xfff
}

/// The 12-bit S-type immediate, split as imm[11:5] in bits 31:25 and
/// imm[4:0] in bits 11:7.
pub open spec fn imm_s_of(w: u32) -> u32 {
    (((w >> 25) & 0x7f) << 5) | ((w >> 7) & 0x1f)
}

/// The B-type target address, bit-sliced as bit 12 from position 31,
/// bits 10:5 from positions 30:25, bits 4:1 from positions 11:8 and
/// bit 11 from position 7. Bit 0 of a target is always 0.
pub open spec fn branch_target_of(w: u32) -> u32 {
    (((w >> 31) & 1) << 12) | (((w >> 7) & 1) << 11) | (((w >> 25) & 0x3f) << 5) | (((w >> 8)
        & 0xf) << 1)
}

/// The jal target address, bit-sliced as bit 20 from position 31,
/// bits 10:1 from positions 30:21, bit 11 from position 20 and
/// bits 19:12 from positions 19:12.
pub open spec fn jal_target_of(w: u32) -> u32 {
    (((w >> 31) & 1) << 20) | (((w >> 12) & 0xff) << 12) | (((w >> 20) & 1) << 11) | (((w >> 21)
        & 0x3ff) << 1)
}

/// The U-type immediate already shifted into the upper 20 bits.
pub open spec fn imm_u_of(w: u32) -> u32 {
    w & 0xfffff000
}

// ---------------------------------------------------------------------------
// Sign extension and 32-bit modular arithmetic used by the executor.
// ---------------------------------------------------------------------------

/// Duplicate bit 11 of a 12-bit immediate through bits 12..31.
pub open spec fn sext12(imm: u32) -> u32 {
    if imm & 0x800 != 0 {
        imm | 0xfffff000
    } else {
        imm & 0xfff
    }
}

/// Sign-extend a byte to 32 bits.
pub open spec fn sext8(b: u32) -> u32 {
    if b & 0x80 != 0 {
        (b & 0xff) | 0xffffff00
    } else {
        b & 0xff
    }
}

/// Sign-extend a halfword to 32 bits.
pub open spec fn sext16(h: u32) -> u32 {
    if h & 0x8000 != 0 {
        (h & 0xffff) | 0xffff0000
    } else {
        h & 0xffff
    }
}

/// The signed value a 32-bit register holds, in two's complement.
pub open spec fn to_signed(x: u32) -> int {
    if x >= 0x80000000 {
        x - 0x100000000
    } else {
        x as int
    }
}

/// Signed less-than on register values.
pub open spec fn signed_lt(x: u32, y: u32) -> bool {
    to_signed(x) < to_signed(y)
}

/// Addition modulo 2^32, the register-level semantics of `add`/`addi`.
pub open spec fn wrap_add(x: u32, y: u32) -> u32 {
    ((x + y) % 0x100000000) as u32
}

/// Subtraction modulo 2^32, the register-level semantics of `sub`.
pub open spec fn wrap_sub(x: u32, y: u32) -> u32 {
    (((x - y) + 0x100000000) % 0x100000000) as u32
}

/// Logical left shift by the low 5 bits of the shift operand.
pub open spec fn shift_left(x: u32, sh: u32) -> u32 {
    x << (sh & 0x1f)
}

/// Logical right shift by the low 5 bits of the shift operand.
pub open spec fn shift_right(x: u32, sh: u32) -> u32 {
    x >> (sh & 0x1f)
}

/// Arithmetic right shift: the vacated high bits copy the sign bit.
pub open spec fn shift_right_arith(x: u32, sh: u32) -> u32 {
    if x & 0x80000000 != 0 {
        (x >> (sh & 0x1f)) | !(0xffffffffu32 >> (sh & 0x1f))
    } else {
        x >> (sh & 0x1f)
    }
}

/// The low 12 bits, in two's complement, of a signed immediate in
/// [-2048, 2047]: what the encoder stores verbatim in the immediate field.
pub open spec fn imm12_bits(v: int) -> u32
    recommends
        -2048 <= v <= 2047,
{
    if v < 0 {
        (v + 4096) as u32
    } else {
        v as u32
    }
}

// ---------------------------------------------------------------------------
// Word construction (encode direction).
// ---------------------------------------------------------------------------

/// R-type: `funct7[31:25] | rs2[24:20] | rs1[19:15] | funct3[14:12] | rd[11:7] | opcode[6:0]`.
pub open spec fn encode_r(funct7: u32, rs2: u32, rs1: u32, funct3: u32, rd: u32, opcode: u32) -> u32 {
    (funct7 << 25) | (rs2 << 20) | (rs1 << 15) | (funct3 << 12) | (rd << 7) | opcode
}

/// I-type: `imm[31:20] | rs1[19:15] | funct3[14:12] | rd[11:7] | opcode[6:0]`.
pub open spec fn encode_i(imm: u32, rs1: u32, funct3: u32, rd: u32, opcode: u32) -> u32 {
    (imm << 20) | (rs1 << 15) | (funct3 << 12) | (rd << 7) | opcode
}

/// S-type: the immediate is split as imm[11:5] into bits 31:25 and
/// imm[4:0] into bits 11:7.
pub open spec fn encode_s(imm: u32, rs2: u32, rs1: u32, funct3: u32, opcode: u32) -> u32 {
    (((imm >> 5) & 0x7f) << 25) | (rs2 << 20) | (rs1 << 15) | (funct3 << 12) | ((imm & 0x1f) << 7)
        | opcode
}

/// B-type, opcode 0b1100011: the target address is bit-sliced around the
/// register and funct3 fields as `branch_target_of` reads it back.
pub open spec fn encode_b(target: u32, rs2: u32, rs1: u32, funct3: u32) -> u32 {
    (((target >> 12) & 1) << 31) | (((target >> 5) & 0x3f) << 25) | (rs2 << 20) | (rs1 << 15) | (
    funct3 << 12) | (((target >> 1) & 0xf) << 8) | (((target >> 11) & 1) << 7) | 0x63
}

/// jal, opcode 0b1101111: the target address is bit-sliced as
/// `jal_target_of` reads it back.
pub open spec fn encode_j(target: u32, rd: u32) -> u32 {
    (((target >> 20) & 1) << 31) | (((target >> 1) & 0x3ff) << 21) | (((target >> 11) & 1) << 20)
        | (((target >> 12) & 0xff) << 12) | (rd << 7) | 0x6f
}

/// U-type (lui): the 20-bit immediate occupies bits 31:12.
pub open spec fn encode_u(imm20: u32, rd: u32, opcode: u32) -> u32 {
    (imm20 << 12) | (rd << 7) | opcode
}

// ---------------------------------------------------------------------------
// The two directions agree: decoding an encoded word recovers every field.
// ---------------------------------------------------------------------------

/// Law: each field of an encoded R-type word reads back as the value the
/// encoder put in, whenever every field is in range for its width.
pub proof fn lemma_decode_encode_r(funct7: u32, rs2: u32, rs1: u32, funct3: u32, rd: u32, opcode: u32)
    requires
        funct7 < 0x80,
        rs2 < 32,
        rs1 < 32,
        funct3 < 8,
        rd < 32,
        opcode < 0x80,
    ensures
        opcode_of(encode_r(funct7, rs2, rs1, funct3, rd, opcode)) == opcode,
        rd_of(encode_r(funct7, rs2, rs1, funct3, rd, opcode)) == rd,
        funct3_of(encode_r(funct7, rs2, rs1, funct3, rd, opcode)) == funct3,
        rs1_of(encode_r(funct7, rs2, rs1, funct3, rd, opcode)) == rs1,
        rs2_of(encode_r(funct7, rs2, rs1, funct3, rd, opcode)) == rs2,
        funct7_of(encode_r(funct7, rs2, rs1, funct3, rd, opcode)) == funct7,
{
    assert(opcode_of(encode_r(funct7, rs2, rs1, funct3, rd, opcode)) == opcode && rd_of(
        encode_r(funct7, rs2, rs1, funct3, rd, opcode),
    ) == rd && funct3_of(encode_r(funct7, rs2, rs1, funct3, rd, opcode)) == funct3 && rs1_of(
        encode_r(funct7, rs2, rs1, funct3, rd, opcode),
    ) == rs1 && rs2_of(encode_r(funct7, rs2, rs1, funct3, rd, opcode)) == rs2 && funct7_of(
        encode_r(funct7, rs2, rs1, funct3, rd, opcode),
    ) == funct7) by (bit_vector)
        requires
            funct7 < 0x80 && rs2 < 32 && rs1 < 32 && funct3 < 8 && rd < 32 && opcode < 0x80,
    ;
}

/// Law: each field of an encoded I-type word, the 12-bit immediate included,
/// reads back as the value the encoder put in.
pub proof fn lemma_decode_encode_i(imm: u32, rs1: u32, funct3: u32, rd: u32, opcode: u32)
    requires
        imm < 0x1000,
        rs1 < 32,
        funct3 < 8,
        rd < 32,
        opcode < 0x80,
    ensures
        opcode_of(encode_i(imm, rs1, funct3, rd, opcode)) == opcode,
        rd_of(encode_i(imm, rs1, funct3, rd, opcode)) == rd,
        funct3_of(encode_i(imm, rs1, funct3, rd, opcode)) == funct3,
        rs1_of(encode_i(imm, rs1, funct3, rd, opcode)) == rs1,
        imm_i_of(encode_i(imm, rs1, funct3, rd, opcode)) == imm,
{
    assert(opcode_of(encode_i(imm, rs1, funct3, rd, opcode)) == opcode && rd_of(
        encode_i(imm, rs1, funct3, rd, opcode),
    ) == rd && funct3_of(encode_i(imm, rs1, funct3, rd, opcode)) == funct3 && rs1_of(
        encode_i(imm, rs1, funct3, rd, opcode),
    ) == rs1 && imm_i_of(encode_i(imm, rs1, funct3, rd, opcode)) == imm) by (bit_vector)
        requires
            imm < 0x1000 && rs1 < 32 && funct3 < 8 && rd < 32 && opcode < 0x80,
    ;
}

/// Law: the split S-type immediate merges back to the encoded value, and the
/// register and funct3 fields read back unchanged; this is the
/// split/merge agreement the non-contiguous S-type layout demands.
pub proof fn lemma_decode_encode_s(imm: u32, rs2: u32, rs1: u32, funct3: u32, opcode: u32)
    requires
        imm < 0x1000,
        rs2 < 32,
        rs1 < 32,
        funct3 < 8,
        opcode < 0x80,
    ensures
        opcode_of(encode_s(imm, rs2, rs1, funct3, opcode)) == opcode,
        funct3_of(encode_s(imm, rs2, rs1, funct3, opcode)) == funct3,
        rs1_of(encode_s(imm, rs2, rs1, funct3, opcode)) == rs1,
        rs2_of(encode_s(imm, rs2, rs1, funct3, opcode)) == rs2,
        imm_s_of(encode_s(imm, rs2, rs1, funct3, opcode)) == imm,
{
    assert(opcode_of(encode_s(imm, rs2, rs1, funct3, opcode)) == opcode && funct3_of(
        encode_s(imm, rs2, rs1, funct3, opcode),
    ) == funct3 && rs1_of(encode_s(imm, rs2, rs1, funct3, opcode)) == rs1 && rs2_of(
        encode_s(imm, rs2, rs1, funct3, opcode),
    ) == rs2 && imm_s_of(encode_s(imm, rs2, rs1, funct3, opcode)) == imm) by (bit_vector)
        requires
            imm < 0x1000 && rs2 < 32 && rs1 < 32 && funct3 < 8 && opcode < 0x80,
    ;
}

/// Law: a B-type word carries its word-aligned 13-bit target address through
/// the four non-contiguous slices and back.
pub proof fn lemma_decode_encode_b(target: u32, rs2: u32, rs1: u32, funct3: u32)
    requires
        target < 0x2000,
        target % 2 == 0,
        rs2 < 32,
        rs1 < 32,
        funct3 < 8,
    ensures
        opcode_of(encode_b(target, rs2, rs1, funct3)) == 0x63,
        funct3_of(encode_b(target, rs2, rs1, funct3)) == funct3,
        rs1_of(encode_b(target, rs2, rs1, funct3)) == rs1,
        rs2_of(encode_b(target, rs2, rs1, funct3)) == rs2,
        branch_target_of(encode_b(target, rs2, rs1, funct3)) == target,
{
    assert(opcode_of(encode_b(target, rs2, rs1, funct3)) == 0x63 && funct3_of(
        encode_b(target, rs2, rs1, funct3),
    ) == funct3 && rs1_of(encode_b(target, rs2, rs1, funct3)) == rs1 && rs2_of(
        encode_b(target, rs2, rs1, funct3),
    ) == rs2 && branch_target_of(encode_b(target, rs2, rs1, funct3)) == target) by (bit_vector)
        requires
            target < 0x2000 && target % 2 == 0 && rs2 < 32 && rs1 < 32 && funct3 < 8,
    ;
}

/// Law: a jal word carries its word-aligned 21-bit target address through the
/// four non-contiguous slices and back.
pub proof fn lemma_decode_encode_j(target: u32, rd: u32)
    requires
        target < 0x200000,
        target % 2 == 0,
        rd < 32,
    ensures
        opcode_of(encode_j(target, rd)) == 0x6f,
        rd_of(encode_j(target, rd)) == rd,
        jal_target_of(encode_j(target, rd)) == target,
{
    assert(opcode_of(encode_j(target, rd)) == 0x6f && rd_of(encode_j(target, rd)) == rd
        && jal_target_of(encode_j(target, rd)) == target) by (bit_vector)
        requires
            target < 0x200000 && target % 2 == 0 && rd < 32,
    ;
}

/// Law: a U-type word returns its 20-bit immediate shifted into the upper
/// bits, exactly as the executor consumes it.
pub proof fn lemma_decode_encode_u(imm20: u32, rd: u32, opcode: u32)
    requires
        imm20 < 0x100000,
        rd < 32,
        opcode < 0x80,
    ensures
        opcode_of(encode_u(imm20, rd, opcode)) == opcode,
        rd_of(encode_u(imm20, rd, opcode)) == rd,
        imm_u_of(encode_u(imm20, rd, opcode)) == imm20 << 12,
{
    assert(opcode_of(encode_u(imm20, rd, opcode)) == opcode && rd_of(encode_u(imm20, rd, opcode))
        == rd && imm_u_of(encode_u(imm20, rd, opcode)) == imm20 << 12) by (bit_vector)
        requires
            imm20 < 0x100000 && rd < 32 && opcode < 0x80,
    ;
}

/// Every extracted field fits the width of the slot it was read from.
pub proof fn lemma_fields_in_range(w: u32)
    ensures
        opcode_of(w) < 0x80,
        rd_of(w) < 32,
        funct3_of(w) < 8,
        rs1_of(w) < 32,
        rs2_of(w) < 32,
        funct7_of(w) < 0x80,
        imm_i_of(w) < 0x1000,
        imm_s_of(w) < 0x1000,
        branch_target_of(w) < 0x2000,
        jal_target_of(w) < 0x200000,
{
    assert(opcode_of(w) < 0x80 && rd_of(w) < 32 && funct3_of(w) < 8 && rs1_of(w) < 32 && rs2_of(w)
        < 32 && funct7_of(w) < 0x80 && imm_i_of(w) < 0x1000 && imm_s_of(w) < 0x1000
        && branch_target_of(w) < 0x2000 && jal_target_of(w) < 0x200000) by (bit_vector);
}

/// Masking to the low 5 bits yields a legal 32-bit shift amount.
pub proof fn lemma_mask5(sh: u32)
    ensures
        sh & 0x1f < 32,
{
    assert(sh & 0x1f < 32) by (bit_vector);
}

/// Law: sign-extending the stored low 12 bits of a signed immediate in
/// [-2048, 2047] yields that value in 32-bit two's complement, so encoding an
/// immediate and decoding it preserves its signed meaning.
pub proof fn lemma_sext12_imm12_bits(v: int)
    requires
        -2048 <= v <= 2047,
    ensures
        to_signed(sext12(imm12_bits(v))) == v,
{
    if v < 0 {
        let b = (v + 4096) as u32;
        assert(2048 <= b < 4096);
        assert(b & 0x800 != 0 && (b | 0xfffff000) >= 0x80000000 && (b | 0xfffff000) == b
            + 0xfffff000) by (bit_vector)
            requires
                2048 <= b < 4096,
        ;
    } else {
        let b = v as u32;
        assert(b < 2048);
        assert(b & 0x800 == 0 && (b & 0xfff) == b) by (bit_vector)
            requires
                b < 2048,
        ;
    }
}

} // verus!
