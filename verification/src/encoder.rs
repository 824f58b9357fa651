//! The instruction encoder: one line of assembly text, plus the symbol
//! table, becomes one 32-bit machine word. Each instruction format has its
//! own line spec, and `encode_tokens_spec` dispatches on the mnemonic; the
//! executable parsers are proved to return exactly what those specs say.
//!
//! Branch and jump targets are resolved to absolute addresses, not
//! PC-relative displacements; the executor applies the same absolute-target
//! convention, and the round-trip laws keep the two in lock-step.

use vstd::prelude::*;

use crate::errors::IsaError;
use crate::fields::encode_b;
use crate::fields::encode_i;
use crate::fields::encode_j;
use crate::fields::encode_r;
use crate::fields::encode_s;
use crate::fields::encode_u;
use crate::fields::imm12_bits;
use crate::regs::reg_index;
use crate::regs::register;
use crate::symtab::is_label_line;
use crate::symtab::sym_map;
use crate::symtab::wf_label_line;
use crate::symtab::build_symbols;
use crate::symtab::line_is_label;
use crate::symtab::SymbolTable;
use crate::text::parse_int;
use crate::text::parse_int_spec;
use crate::text::str_eq;
use crate::text::tokenize;
use crate::text::tokens_of;

verus! {

/// A register operand with its optional trailing comma stripped.
pub open spec fn strip_comma(t: Seq<char>) -> Seq<char> {
    if t.len() > 0 && t.last() == ',' {
        t.drop_last()
    } else {
        t
    }
}

/// The funct3 and funct7 fields of an R-type mnemonic; `sub` and `sra`
/// differ from `add` and `srl` solely by funct7 bit 5.
pub open spec fn r_funct(mn: Seq<char>) -> Option<(u32, u32)> {
    if mn == "add"@ {
        Some((0u32, 0u32))
    } else if mn == "sub"@ {
        Some((0u32, 0x20u32))
    } else if mn == "sll"@ {
        Some((1u32, 0u32))
    } else if mn == "slt"@ {
        Some((2u32, 0u32))
    } else if mn == "sltu"@ {
        Some((3u32, 0u32))
    } else if mn == "xor"@ {
        Some((4u32, 0u32))
    } else if mn == "srl"@ {
        Some((5u32, 0u32))
    } else if mn == "sra"@ {
        Some((5u32, 0x20u32))
    } else if mn == "or"@ {
        Some((6u32, 0u32))
    } else if mn == "and"@ {
        Some((7u32, 0u32))
    } else {
        None
    }
}

/// The opcode and funct3 of an I-type mnemonic, with two flags: whether the
/// immediate is a shift amount, and whether bit 30 (the arithmetic-shift
/// marker of `srai`) is set.
pub open spec fn i_funct(mn: Seq<char>) -> Option<(u32, u32, bool, bool)> {
    if mn == "addi"@ {
        Some((0x13u32, 0u32, false, false))
    } else if mn == "slti"@ {
        Some((0x13u32, 2u32, false, false))
    } else if mn == "sltiu"@ {
        Some((0x13u32, 3u32, false, false))
    } else if mn == "xori"@ {
        Some((0x13u32, 4u32, false, false))
    } else if mn == "ori"@ {
        Some((0x13u32, 6u32, false, false))
    } else if mn == "andi"@ {
        Some((0x13u32, 7u32, false, false))
    } else if mn == "slli"@ {
        Some((0x13u32, 1u32, true, false))
    } else if mn == "srli"@ {
        Some((0x13u32, 5u32, true, false))
    } else if mn == "srai"@ {
        Some((0x13u32, 5u32, true, true))
    } else if mn == "lb"@ {
        Some((0x03u32, 0u32, false, false))
    } else if mn == "lh"@ {
        Some((0x03u32, 1u32, false, false))
    } else if mn == "lw"@ {
        Some((0x03u32, 2u32, false, false))
    } else if mn == "lbu"@ {
        Some((0x03u32, 4u32, false, false))
    } else if mn == "lhu"@ {
        Some((0x03u32, 5u32, false, false))
    } else {
        None
    }
}

/// The funct3 of a store mnemonic.
pub open spec fn s_funct(mn: Seq<char>) -> Option<u32> {
    if mn == "sb"@ {
        Some(0u32)
    } else if mn == "sh"@ {
        Some(1u32)
    } else if mn == "sw"@ {
        Some(2u32)
    } else {
        None
    }
}

/// The funct3 of a branch mnemonic.
pub open spec fn b_funct(mn: Seq<char>) -> Option<u32> {
    if mn == "beq"@ {
        Some(0u32)
    } else if mn == "bne"@ {
        Some(1u32)
    } else if mn == "blt"@ {
        Some(4u32)
    } else if mn == "bge"@ {
        Some(5u32)
    } else if mn == "bltu"@ {
        Some(6u32)
    } else if mn == "bgeu"@ {
        Some(7u32)
    } else {
        None
    }
}

/// The word an R-type line (`mn rd, rs1, rs2`) encodes to.
pub open spec fn r_line(ts: Seq<Seq<char>>) -> Result<u32, IsaError> {
    if ts.len() == 0 {
        Err(IsaError::MalformedLine)
    } else {
        match r_funct(ts[0]) {
            None => Err(IsaError::UnknownOpcode),
            Some((f3, f7)) => if ts.len() != 4 {
                Err(IsaError::MalformedLine)
            } else {
                match (reg_index(strip_comma(ts[1])), reg_index(strip_comma(ts[2])), reg_index(
                    strip_comma(ts[3]),
                )) {
                    (Some(rd), Some(rs1), Some(rs2)) => Ok(encode_r(f7, rs2, rs1, f3, rd, 0x33)),
                    _ => Err(IsaError::UnknownRegister),
                }
            },
        }
    }
}

/// The word an I-type line (`mn rd, rs1, imm`) encodes to: the signed 12-bit
/// immediate is stored verbatim in bits 31:20 (sign extension is the
/// executor's job); shift mnemonics take a shift amount in [0, 31] instead,
/// with bit 30 set for `srai`.
pub open spec fn i_line(ts: Seq<Seq<char>>) -> Result<u32, IsaError> {
    if ts.len() == 0 {
        Err(IsaError::MalformedLine)
    } else {
        match i_funct(ts[0]) {
            None => Err(IsaError::UnknownOpcode),
            Some((op, f3, sh, ar)) => if ts.len() != 4 {
                Err(IsaError::MalformedLine)
            } else {
                match (reg_index(strip_comma(ts[1])), reg_index(strip_comma(ts[2]))) {
                    (Some(rd), Some(rs1)) => match parse_int_spec(ts[3]) {
                        Some(v) => if sh {
                            if 0 <= v <= 31 {
                                Ok(
                                    encode_i(
                                        if ar {
                                            (0x400u32 | (v as u32))
                                        } else {
                                            v as u32
                                        },
                                        rs1,
                                        f3,
                                        rd,
                                        op,
                                    ),
                                )
                            } else {
                                Err(IsaError::MalformedLine)
                            }
                        } else {
                            if -2048 <= v <= 2047 {
                                Ok(encode_i(imm12_bits(v), rs1, f3, rd, op))
                            } else {
                                Err(IsaError::MalformedLine)
                            }
                        },
                        None => Err(IsaError::MalformedLine),
                    },
                    _ => Err(IsaError::UnknownRegister),
                }
            },
        }
    }
}

/// The word a store line (`mn rs2, rs1, imm`) encodes to: the value of `rs2`
/// is stored at `rs1 + imm`, and the 12-bit immediate is split across the
/// two S-type slots.
pub open spec fn s_line(ts: Seq<Seq<char>>) -> Result<u32, IsaError> {
    if ts.len() == 0 {
        Err(IsaError::MalformedLine)
    } else {
        match s_funct(ts[0]) {
            None => Err(IsaError::UnknownOpcode),
            Some(f3) => if ts.len() != 4 {
                Err(IsaError::MalformedLine)
            } else {
                match (reg_index(strip_comma(ts[1])), reg_index(strip_comma(ts[2]))) {
                    (Some(rs2), Some(rs1)) => match parse_int_spec(ts[3]) {
                        Some(v) => if -2048 <= v <= 2047 {
                            Ok(encode_s(imm12_bits(v), rs2, rs1, f3, 0x23))
                        } else {
                            Err(IsaError::MalformedLine)
                        },
                        None => Err(IsaError::MalformedLine),
                    },
                    _ => Err(IsaError::UnknownRegister),
                }
            },
        }
    }
}

/// The word a branch line (`mn rs1, rs2, label`) encodes to: the label's
/// absolute address, bit-sliced into the B-type slots.
pub open spec fn b_line(ts: Seq<Seq<char>>, sym: Map<Seq<char>, u32>) -> Result<u32, IsaError> {
    if ts.len() == 0 {
        Err(IsaError::MalformedLine)
    } else {
        match b_funct(ts[0]) {
            None => Err(IsaError::UnknownOpcode),
            Some(f3) => if ts.len() != 4 {
                Err(IsaError::MalformedLine)
            } else {
                match (reg_index(strip_comma(ts[1])), reg_index(strip_comma(ts[2]))) {
                    (Some(rs1), Some(rs2)) => if sym.contains_key(ts[3]) {
                        Ok(encode_b(sym[ts[3]], rs2, rs1, f3))
                    } else {
                        Err(IsaError::UndefinedSymbol)
                    },
                    _ => Err(IsaError::UnknownRegister),
                }
            },
        }
    }
}

/// The word a `jal rd, label` line encodes to: the label's absolute address,
/// bit-sliced into the jal slots.
pub open spec fn jal_line(ts: Seq<Seq<char>>, sym: Map<Seq<char>, u32>) -> Result<u32, IsaError> {
    if ts.len() != 3 {
        Err(IsaError::MalformedLine)
    } else {
        match reg_index(strip_comma(ts[1])) {
            Some(rd) => if sym.contains_key(ts[2]) {
                Ok(encode_j(sym[ts[2]], rd))
            } else {
                Err(IsaError::UndefinedSymbol)
            },
            None => Err(IsaError::UnknownRegister),
        }
    }
}

/// The word a `jalr rd, rs1, label` line encodes to: the low 12 bits of the
/// label's absolute address in the immediate slot, fixed funct3 0.
pub open spec fn jalr_line(ts: Seq<Seq<char>>, sym: Map<Seq<char>, u32>) -> Result<u32, IsaError> {
    if ts.len() != 4 {
        Err(IsaError::MalformedLine)
    } else {
        match (reg_index(strip_comma(ts[1])), reg_index(strip_comma(ts[2]))) {
            (Some(rd), Some(rs1)) => if sym.contains_key(ts[3]) {
                Ok(encode_i(sym[ts[3]] & 0xfff, rs1, 0, rd, 0x67))
            } else {
                Err(IsaError::UndefinedSymbol)
            },
            _ => Err(IsaError::UnknownRegister),
        }
    }
}

/// The word a `lui rd, imm` line encodes to: a 20-bit immediate in bits
/// 31:12.
pub open spec fn lui_line(ts: Seq<Seq<char>>) -> Result<u32, IsaError> {
    if ts.len() != 3 {
        Err(IsaError::MalformedLine)
    } else {
        match reg_index(strip_comma(ts[1])) {
            Some(rd) => match parse_int_spec(ts[2]) {
                Some(v) => if 0 <= v <= 0xfffff {
                    Ok(encode_u(v as u32, rd, 0x37))
                } else {
                    Err(IsaError::MalformedLine)
                },
                None => Err(IsaError::MalformedLine),
            },
            None => Err(IsaError::UnknownRegister),
        }
    }
}

/// The word an instruction line's tokens encode to, dispatched on the
/// mnemonic; an unrecognized mnemonic is an unknown opcode.
pub open spec fn encode_tokens_spec(ts: Seq<Seq<char>>, sym: Map<Seq<char>, u32>) -> Result<
    u32,
    IsaError,
> {
    if ts.len() == 0 {
        Err(IsaError::MalformedLine)
    } else if r_funct(ts[0]) is Some {
        r_line(ts)
    } else if i_funct(ts[0]) is Some {
        i_line(ts)
    } else if s_funct(ts[0]) is Some {
        s_line(ts)
    } else if b_funct(ts[0]) is Some {
        b_line(ts, sym)
    } else if ts[0] == "jal"@ {
        jal_line(ts, sym)
    } else if ts[0] == "jalr"@ {
        jalr_line(ts, sym)
    } else if ts[0] == "lui"@ {
        lui_line(ts)
    } else {
        Err(IsaError::UnknownOpcode)
    }
}

/// The word one line of assembly text encodes to under a symbol table.
pub open spec fn encode_line_spec(line: Seq<char>, sym: Map<Seq<char>, u32>) -> Result<
    u32,
    IsaError,
> {
    encode_tokens_spec(tokens_of(line), sym)
}

/// A register operand with its optional trailing comma stripped.
fn strip_comma_exec(t: &String) -> (r: String)
    ensures
        r@ == strip_comma(t@),
{
    let n = t.as_str().unicode_len();
    if n > 0 && t.as_str().get_char(n - 1) == ',' {
        let s = t.as_str().substring_char(0, n - 1);
        proof {
            assert(s@ =~= t@.drop_last());
        }
        s.to_owned()
    } else {
        t.clone()
    }
}

/// Resolve a register operand token, comma and all.
fn operand_reg(t: &String) -> (r: Result<u32, IsaError>)
    ensures
        (match reg_index(strip_comma(t@)) {
            Some(i) => r == Ok::<u32, IsaError>(i) && i < 32,
            None => r == Err::<u32, IsaError>(IsaError::UnknownRegister),
        }),
{
    let s = strip_comma_exec(t);
    register(&s)
}

/// The R-type funct fields of a mnemonic token.
fn r_funct_exec(mn: &String) -> (r: Option<(u32, u32)>)
    ensures
        r == r_funct(mn@),
{
    let s = mn.as_str();
    if str_eq(s, "add") {
        Some((0, 0))
    } else if str_eq(s, "sub") {
        Some((0, 0x20))
    } else if str_eq(s, "sll") {
        Some((1, 0))
    } else if str_eq(s, "slt") {
        Some((2, 0))
    } else if str_eq(s, "sltu") {
        Some((3, 0))
    } else if str_eq(s, "xor") {
        Some((4, 0))
    } else if str_eq(s, "srl") {
        Some((5, 0))
    } else if str_eq(s, "sra") {
        Some((5, 0x20))
    } else if str_eq(s, "or") {
        Some((6, 0))
    } else if str_eq(s, "and") {
        Some((7, 0))
    } else {
        None
    }
}

/// The I-type opcode, funct3 and shift flags of a mnemonic token.
fn i_funct_exec(mn: &String) -> (r: Option<(u32, u32, bool, bool)>)
    ensures
        r == i_funct(mn@),
{
    let s = mn.as_str();
    if str_eq(s, "addi") {
        Some((0x13, 0, false, false))
    } else if str_eq(s, "slti") {
        Some((0x13, 2, false, false))
    } else if str_eq(s, "sltiu") {
        Some((0x13, 3, false, false))
    } else if str_eq(s, "xori") {
        Some((0x13, 4, false, false))
    } else if str_eq(s, "ori") {
        Some((0x13, 6, false, false))
    } else if str_eq(s, "andi") {
        Some((0x13, 7, false, false))
    } else if str_eq(s, "slli") {
        Some((0x13, 1, true, false))
    } else if str_eq(s, "srli") {
        Some((0x13, 5, true, false))
    } else if str_eq(s, "srai") {
        Some((0x13, 5, true, true))
    } else if str_eq(s, "lb") {
        Some((0x03, 0, false, false))
    } else if str_eq(s, "lh") {
        Some((0x03, 1, false, false))
    } else if str_eq(s, "lw") {
        Some((0x03, 2, false, false))
    } else if str_eq(s, "lbu") {
        Some((0x03, 4, false, false))
    } else if str_eq(s, "lhu") {
        Some((0x03, 5, false, false))
    } else {
        None
    }
}

/// The store funct3 of a mnemonic token.
fn s_funct_exec(mn: &String) -> (r: Option<u32>)
    ensures
        r == s_funct(mn@),
{
    let s = mn.as_str();
    if str_eq(s, "sb") {
        Some(0)
    } else if str_eq(s, "sh") {
        Some(1)
    } else if str_eq(s, "sw") {
        Some(2)
    } else {
        None
    }
}

/// The branch funct3 of a mnemonic token.
fn b_funct_exec(mn: &String) -> (r: Option<u32>)
    ensures
        r == b_funct(mn@),
{
    let s = mn.as_str();
    if str_eq(s, "beq") {
        Some(0)
    } else if str_eq(s, "bne") {
        Some(1)
    } else if str_eq(s, "blt") {
        Some(4)
    } else if str_eq(s, "bge") {
        Some(5)
    } else if str_eq(s, "bltu") {
        Some(6)
    } else if str_eq(s, "bgeu") {
        Some(7)
    } else {
        None
    }
}

/// Encode one R-type instruction line.
pub fn parse_r_type(line: &str) -> (r: Result<u32, IsaError>)
    ensures
        r == r_line(tokens_of(line@)),
{
    let ts = tokenize(line);
    proof {
        assert(forall|j: int| 0 <= j < ts@.len() ==> ts.deep_view()[j] == #[trigger] ts@[j]@);
    }
    if ts.len() == 0 {
        return Err(IsaError::MalformedLine);
    }
    let (f3, f7) = match r_funct_exec(&ts[0]) {
        Some(p) => p,
        None => {
            return Err(IsaError::UnknownOpcode);
        },
    };
    if ts.len() != 4 {
        return Err(IsaError::MalformedLine);
    }
    let rd = match operand_reg(&ts[1]) {
        Ok(x) => x,
        Err(e) => {
            return Err(e);
        },
    };
    let rs1 = match operand_reg(&ts[2]) {
        Ok(x) => x,
        Err(e) => {
            return Err(e);
        },
    };
    let rs2 = match operand_reg(&ts[3]) {
        Ok(x) => x,
        Err(e) => {
            return Err(e);
        },
    };
    Ok((f7 << 25) | (rs2 << 20) | (rs1 << 15) | (f3 << 12) | (rd << 7) | 0x33)
}

/// Encode one I-type instruction line (immediate arithmetic and loads).
pub fn parse_i_type(line: &str) -> (r: Result<u32, IsaError>)
    ensures
        r == i_line(tokens_of(line@)),
{
    let ts = tokenize(line);
    proof {
        assert(forall|j: int| 0 <= j < ts@.len() ==> ts.deep_view()[j] == #[trigger] ts@[j]@);
    }
    if ts.len() == 0 {
        return Err(IsaError::MalformedLine);
    }
    let (op, f3, sh, ar) = match i_funct_exec(&ts[0]) {
        Some(p) => p,
        None => {
            return Err(IsaError::UnknownOpcode);
        },
    };
    if ts.len() != 4 {
        return Err(IsaError::MalformedLine);
    }
    let rd = match operand_reg(&ts[1]) {
        Ok(x) => x,
        Err(e) => {
            return Err(e);
        },
    };
    let rs1 = match operand_reg(&ts[2]) {
        Ok(x) => x,
        Err(e) => {
            return Err(e);
        },
    };
    let v = match parse_int(ts[3].as_str()) {
        Some(x) => x,
        None => {
            return Err(IsaError::MalformedLine);
        },
    };
    let imm: u32 = if sh {
        if !(0 <= v && v <= 31) {
            return Err(IsaError::MalformedLine);
        }
        if ar {
            0x400u32 | (v as u32)
        } else {
            v as u32
        }
    } else {
        if !(-2048 <= v && v <= 2047) {
            return Err(IsaError::MalformedLine);
        }
        if v < 0 {
            (v + 4096) as u32
        } else {
            v as u32
        }
    };
    Ok((imm << 20) | (rs1 << 15) | (f3 << 12) | (rd << 7) | op)
}

/// Encode one store instruction line.
pub fn parse_s_type(line: &str) -> (r: Result<u32, IsaError>)
    ensures
        r == s_line(tokens_of(line@)),
{
    let ts = tokenize(line);
    proof {
        assert(forall|j: int| 0 <= j < ts@.len() ==> ts.deep_view()[j] == #[trigger] ts@[j]@);
    }
    if ts.len() == 0 {
        return Err(IsaError::MalformedLine);
    }
    let f3 = match s_funct_exec(&ts[0]) {
        Some(p) => p,
        None => {
            return Err(IsaError::UnknownOpcode);
        },
    };
    if ts.len() != 4 {
        return Err(IsaError::MalformedLine);
    }
    let rs2 = match operand_reg(&ts[1]) {
        Ok(x) => x,
        Err(e) => {
            return Err(e);
        },
    };
    let rs1 = match operand_reg(&ts[2]) {
        Ok(x) => x,
        Err(e) => {
            return Err(e);
        },
    };
    let v = match parse_int(ts[3].as_str()) {
        Some(x) => x,
        None => {
            return Err(IsaError::MalformedLine);
        },
    };
    if !(-2048 <= v && v <= 2047) {
        return Err(IsaError::MalformedLine);
    }
    let imm: u32 = if v < 0 {
        (v + 4096) as u32
    } else {
        v as u32
    };
    Ok(
        (((imm >> 5) & 0x7f) << 25) | (rs2 << 20) | (rs1 << 15) | (f3 << 12) | ((imm & 0x1f) << 7)
            | 0x23,
    )
}

/// Encode one branch instruction line; the label resolves to its absolute
/// address through the symbol table.
pub fn parse_b_type(line: &str, symbols: &SymbolTable) -> (r: Result<u32, IsaError>)
    ensures
        r == b_line(tokens_of(line@), symbols@),
{
    let ts = tokenize(line);
    proof {
        assert(forall|j: int| 0 <= j < ts@.len() ==> ts.deep_view()[j] == #[trigger] ts@[j]@);
    }
    if ts.len() == 0 {
        return Err(IsaError::MalformedLine);
    }
    let f3 = match b_funct_exec(&ts[0]) {
        Some(p) => p,
        None => {
            return Err(IsaError::UnknownOpcode);
        },
    };
    if ts.len() != 4 {
        return Err(IsaError::MalformedLine);
    }
    let rs1 = match operand_reg(&ts[1]) {
        Ok(x) => x,
        Err(e) => {
            return Err(e);
        },
    };
    let rs2 = match operand_reg(&ts[2]) {
        Ok(x) => x,
        Err(e) => {
            return Err(e);
        },
    };
    let addr = match symbols.resolve(ts[3].as_str()) {
        Ok(a) => a,
        Err(e) => {
            return Err(e);
        },
    };
    Ok(
        (((addr >> 12) & 1) << 31) | (((addr >> 5) & 0x3f) << 25) | (rs2 << 20) | (rs1 << 15) | (f3
            << 12) | (((addr >> 1) & 0xf) << 8) | (((addr >> 11) & 1) << 7) | 0x63,
    )
}

/// Encode one `jal` line; the label resolves to its absolute address.
pub fn parse_jal(line: &str, symbols: &SymbolTable) -> (r: Result<u32, IsaError>)
    ensures
        r == jal_line(tokens_of(line@), symbols@),
{
    let ts = tokenize(line);
    proof {
        assert(forall|j: int| 0 <= j < ts@.len() ==> ts.deep_view()[j] == #[trigger] ts@[j]@);
    }
    if ts.len() != 3 {
        return Err(IsaError::MalformedLine);
    }
    let rd = match operand_reg(&ts[1]) {
        Ok(x) => x,
        Err(e) => {
            return Err(e);
        },
    };
    let addr = match symbols.resolve(ts[2].as_str()) {
        Ok(a) => a,
        Err(e) => {
            return Err(e);
        },
    };
    Ok(
        (((addr >> 20) & 1) << 31) | (((addr >> 1) & 0x3ff) << 21) | (((addr >> 11) & 1) << 20) | ((
        (addr >> 12) & 0xff) << 12) | (rd << 7) | 0x6f,
    )
}

/// Encode one `jalr` line; the label's absolute address lands in the 12-bit
/// immediate slot.
pub fn parse_jalr(line: &str, symbols: &SymbolTable) -> (r: Result<u32, IsaError>)
    ensures
        r == jalr_line(tokens_of(line@), symbols@),
{
    let ts = tokenize(line);
    proof {
        assert(forall|j: int| 0 <= j < ts@.len() ==> ts.deep_view()[j] == #[trigger] ts@[j]@);
    }
    if ts.len() != 4 {
        return Err(IsaError::MalformedLine);
    }
    let rd = match operand_reg(&ts[1]) {
        Ok(x) => x,
        Err(e) => {
            return Err(e);
        },
    };
    let rs1 = match operand_reg(&ts[2]) {
        Ok(x) => x,
        Err(e) => {
            return Err(e);
        },
    };
    let addr = match symbols.resolve(ts[3].as_str()) {
        Ok(a) => a,
        Err(e) => {
            return Err(e);
        },
    };
    Ok(((addr & 0xfff) << 20) | (rs1 << 15) | (0 << 12) | (rd << 7) | 0x67)
}

/// Encode one `lui` line.
pub fn parse_lui(line: &str) -> (r: Result<u32, IsaError>)
    ensures
        r == lui_line(tokens_of(line@)),
{
    let ts = tokenize(line);
    proof {
        assert(forall|j: int| 0 <= j < ts@.len() ==> ts.deep_view()[j] == #[trigger] ts@[j]@);
    }
    if ts.len() != 3 {
        return Err(IsaError::MalformedLine);
    }
    let rd = match operand_reg(&ts[1]) {
        Ok(x) => x,
        Err(e) => {
            return Err(e);
        },
    };
    let v = match parse_int(ts[2].as_str()) {
        Some(x) => x,
        None => {
            return Err(IsaError::MalformedLine);
        },
    };
    if !(0 <= v && v <= 0xfffff) {
        return Err(IsaError::MalformedLine);
    }
    Ok(((v as u32) << 12) | (rd << 7) | 0x37)
}

/// Encode one instruction line, dispatching on its mnemonic.
pub fn parse_line(line: &str, symbols: &SymbolTable) -> (r: Result<u32, IsaError>)
    ensures
        r == encode_line_spec(line@, symbols@),
{
    let ts = tokenize(line);
    proof {
        assert(forall|j: int| 0 <= j < ts@.len() ==> ts.deep_view()[j] == #[trigger] ts@[j]@);
    }
    if ts.len() == 0 {
        return Err(IsaError::MalformedLine);
    }
    let mn = &ts[0];
    if r_funct_exec(mn).is_some() {
        parse_r_type(line)
    } else if i_funct_exec(mn).is_some() {
        parse_i_type(line)
    } else if s_funct_exec(mn).is_some() {
        parse_s_type(line)
    } else if b_funct_exec(mn).is_some() {
        parse_b_type(line, symbols)
    } else if str_eq(mn.as_str(), "jal") {
        parse_jal(line, symbols)
    } else if str_eq(mn.as_str(), "jalr") {
        parse_jalr(line, symbols)
    } else if str_eq(mn.as_str(), "lui") {
        parse_lui(line)
    } else {
        Err(IsaError::UnknownOpcode)
    }
}

/// The words the source lines from `i` on encode to under a symbol table: a
/// well-formed label line contributes none, an instruction line exactly one,
/// and the first bad line's error is the program's.
pub open spec fn encode_lines(lines: Seq<Seq<char>>, i: int, sym: Map<Seq<char>, u32>) -> Result<
    Seq<u32>,
    IsaError,
>
    decreases lines.len() - i,
{
    if i < 0 || i >= lines.len() {
        Ok(Seq::empty())
    } else {
        let ts = tokens_of(lines[i]);
        if is_label_line(ts) {
            if wf_label_line(ts) {
                encode_lines(lines, i + 1, sym)
            } else {
                Err(IsaError::MalformedLine)
            }
        } else {
            match encode_tokens_spec(ts, sym) {
                Ok(w) => match encode_lines(lines, i + 1, sym) {
                    Ok(ws) => Ok(seq![w] + ws),
                    Err(e) => Err(e),
                },
                Err(e) => Err(e),
            }
        }
    }
}

/// What a whole program assembles to: the symbol table built by the full
/// first pass, then every instruction line encoded under it in order.
pub open spec fn assemble_spec(lines: Seq<Seq<char>>) -> Result<Seq<u32>, IsaError> {
    encode_lines(lines, 0, sym_map(lines))
}

/// Two-pass assembly: the address-assignment pass builds the symbol table in
/// full, then each line is encoded, so forward and backward label references
/// resolve alike. Word `i` of the result belongs at byte address `4 * i`.
pub fn assemble(lines: &Vec<String>) -> (r: Result<Vec<u32>, IsaError>)
    requires
        lines@.len() <= 0x3fffffff,
    ensures
        (match assemble_spec(lines.deep_view()) {
            Ok(ws) => (match r {
                Ok(v) => v@ == ws,
                Err(_) => false,
            }),
            Err(e) => r == Err::<Vec<u32>, IsaError>(e),
        }),
{
    let ghost all = lines.deep_view();
    let ghost sym = sym_map(all);
    let t = build_symbols(lines);
    let mut out: Vec<u32> = Vec::new();
    let mut i: usize = 0;
    let n = lines.len();
    proof {
        assert(out@ + encode_lines(all, 0, sym)->Ok_0 =~= encode_lines(all, 0, sym)->Ok_0);
    }
    while i < n
        invariant
            all == lines.deep_view(),
            n == lines@.len(),
            i <= n,
            sym == sym_map(all),
            t@ == sym,
            (match encode_lines(all, i as int, sym) {
                Ok(ws) => encode_lines(all, 0, sym) == Ok::<Seq<u32>, IsaError>(out@ + ws),
                Err(e) => encode_lines(all, 0, sym) == Err::<Seq<u32>, IsaError>(e),
            }),
        decreases n - i,
    {
        let ts = tokenize(lines[i].as_str());
        proof {
            assert(lines.deep_view()[i as int] == lines@[i as int]@);
            assert(tokens_of(all[i as int]) == ts.deep_view());
            assert(forall|j: int| 0 <= j < ts@.len() ==> ts.deep_view()[j] == #[trigger] ts@[j]@);
        }
        if line_is_label(&ts) {
            if ts.len() != 1 {
                return Err(IsaError::MalformedLine);
            }
            let l0 = ts[0].as_str().unicode_len();
            if l0 < 2 {
                return Err(IsaError::MalformedLine);
            }
        } else {
            match parse_line(lines[i].as_str(), &t) {
                Ok(w) => {
                    let ghost pre = out@;
                    out.push(w);
                    proof {
                        if encode_lines(all, i + 1, sym) is Ok {
                            assert(pre + (seq![w] + encode_lines(all, i + 1, sym)->Ok_0) =~= out@
                                + encode_lines(all, i + 1, sym)->Ok_0);
                        }
                    }
                },
                Err(e) => {
                    return Err(e);
                },
            }
        }
        i = i + 1;
    }
    proof {
        assert(encode_lines(all, n as int, sym) == Ok::<Seq<u32>, IsaError>(Seq::empty()));
        assert(out@ + Seq::<u32>::empty() =~= out@);
    }
    Ok(out)
}

} // verus!
