//! The laws that keep the encoder and the executor in lock-step: the word
//! built for each instruction format decodes and executes as that
//! instruction's semantic effect, writes to register 0 stay discarded, and
//! symbol resolution depends only on the completed symbol table, never on
//! the order in which labels were reached.

use vstd::prelude::*;

use crate::encoder::b_funct;
use crate::encoder::b_line;
use crate::encoder::encode_tokens_spec;
use crate::encoder::i_funct;
use crate::encoder::jal_line;
use crate::encoder::jalr_line;
use crate::encoder::r_funct;
use crate::encoder::s_funct;
use crate::errors::IsaError;
use crate::fields::encode_b;
use crate::fields::encode_i;
use crate::fields::encode_j;
use crate::fields::encode_r;
use crate::fields::encode_s;
use crate::fields::encode_u;
use crate::fields::funct3_of;
use crate::fields::funct7_of;
use crate::fields::lemma_decode_encode_b;
use crate::fields::lemma_decode_encode_i;
use crate::fields::lemma_decode_encode_j;
use crate::fields::lemma_decode_encode_r;
use crate::fields::lemma_decode_encode_s;
use crate::fields::lemma_decode_encode_u;
use crate::fields::opcode_of;
use crate::fields::sext12;
use crate::fields::sext16;
use crate::fields::sext8;
use crate::fields::wrap_add;
use crate::machine::alu;
use crate::machine::branch_taken;
use crate::machine::imm_alu;
use crate::machine::is_halted_spec;
use crate::machine::mem_read;
use crate::machine::mem_write;
use crate::machine::step_spec;
use crate::machine::write_reg;
use crate::machine::Model;

verus! {

broadcast use vstd::string::group_string_axioms;

/// Law: writing register 0 is a no-op — the register file is unchanged and
/// reading index 0 afterwards still yields 0, whatever value was written.
pub proof fn lemma_write_register_zero(m: Model, v: u32)
    requires
        m.wf(),
    ensures
        write_reg(m.regs, 0, v) == m.regs,
        write_reg(m.regs, 0, v)[0] == 0,
{
}

/// Law: a machine whose program counter stands at `4 * len(prog)` reports
/// halted, and a step from there reports only the out-of-range fetch, never
/// a state change.
pub proof fn lemma_fetch_past_end(m: Model)
    requires
        m.wf(),
        m.pc == 4 * m.prog.len(),
    ensures
        is_halted_spec(m),
        step_spec(m) == Err::<Model, IsaError>(IsaError::FetchOutOfRange),
{
}

/// Law (round trip, R-type): the word the encoder builds for an R-type
/// mnemonic executes as that mnemonic's effect — `rd` receives the ALU
/// result of the two source registers and the program counter advances 4.
pub proof fn lemma_round_trip_r(m: Model, f3: u32, f7: u32, rd: u32, rs1: u32, rs2: u32)
    requires
        m.wf(),
        f3 < 8,
        f7 < 0x80,
        rd < 32,
        rs1 < 32,
        rs2 < 32,
        m.pc / 4 < m.prog.len(),
        m.prog[(m.pc / 4) as int] == encode_r(f7, rs2, rs1, f3, rd, 0x33),
    ensures
        step_spec(m) == Ok::<Model, IsaError>(
            (Model {
                regs: write_reg(m.regs, rd, alu(f3, f7, m.regs[rs1 as int], m.regs[rs2 as int])),
                pc: wrap_add(m.pc, 4),
                ..m
            }),
        ),
{
    lemma_decode_encode_r(f7, rs2, rs1, f3, rd, 0x33);
}

/// Law (round trip, op-imm): the word built for an immediate-arithmetic
/// mnemonic executes as its effect; the encoded 12-bit immediate comes back
/// through the op-imm ALU, whose funct7 view is the immediate's top bits.
pub proof fn lemma_round_trip_i(m: Model, f3: u32, imm: u32, rd: u32, rs1: u32)
    requires
        m.wf(),
        f3 < 8,
        imm < 0x1000,
        rd < 32,
        rs1 < 32,
        m.pc / 4 < m.prog.len(),
        m.prog[(m.pc / 4) as int] == encode_i(imm, rs1, f3, rd, 0x13),
    ensures
        step_spec(m) == Ok::<Model, IsaError>(
            (Model {
                regs: write_reg(m.regs, rd, imm_alu(f3, imm >> 5, m.regs[rs1 as int], imm)),
                pc: wrap_add(m.pc, 4),
                ..m
            }),
        ),
{
    lemma_decode_encode_i(imm, rs1, f3, rd, 0x13);
    assert(funct7_of((imm << 20) | (rs1 << 15) | (f3 << 12) | (rd << 7) | 0x13u32) == imm >> 5)
        by (bit_vector)
        requires
            imm < 0x1000 && rs1 < 32 && f3 < 8 && rd < 32,
    ;
}

/// Law (round trip, load): the word built for a load mnemonic executes as
/// its effect — `rd` receives the bytes at `rs1 + sign_extend(imm)`, with
/// the width and extension funct3 selects, or the out-of-range address is
/// reported and nothing changes.
pub proof fn lemma_round_trip_load(m: Model, f3: u32, imm: u32, rd: u32, rs1: u32)
    requires
        m.wf(),
        f3 == 0 || f3 == 1 || f3 == 2 || f3 == 4 || f3 == 5,
        imm < 0x1000,
        rd < 32,
        rs1 < 32,
        m.pc / 4 < m.prog.len(),
        m.prog[(m.pc / 4) as int] == encode_i(imm, rs1, f3, rd, 0x03),
    ensures
        ({
            let ea = wrap_add(m.regs[rs1 as int], sext12(imm));
            let width: int = if f3 == 0 || f3 == 4 {
                1
            } else if f3 == 1 || f3 == 5 {
                2
            } else {
                4
            };
            if ea + width <= m.mem.len() {
                step_spec(m) == Ok::<Model, IsaError>(
                    (Model {
                        regs: write_reg(
                            m.regs,
                            rd,
                            if f3 == 0 {
                                sext8(mem_read(m.mem, ea as int, width))
                            } else if f3 == 1 {
                                sext16(mem_read(m.mem, ea as int, width))
                            } else {
                                mem_read(m.mem, ea as int, width)
                            },
                        ),
                        pc: wrap_add(m.pc, 4),
                        ..m
                    }),
                )
            } else {
                step_spec(m) == Err::<Model, IsaError>(IsaError::MemoryOutOfRange)
            }
        }),
{
    lemma_decode_encode_i(imm, rs1, f3, rd, 0x03);
}

/// Law (round trip, store): the word built for a store mnemonic executes as
/// its effect — the low bytes of `rs2` land at `rs1 + sign_extend(imm)`,
/// the split immediate merging back exactly, or the out-of-range address is
/// reported and nothing changes.
pub proof fn lemma_round_trip_store(m: Model, f3: u32, imm: u32, rs1: u32, rs2: u32)
    requires
        m.wf(),
        f3 == 0 || f3 == 1 || f3 == 2,
        imm < 0x1000,
        rs1 < 32,
        rs2 < 32,
        m.pc / 4 < m.prog.len(),
        m.prog[(m.pc / 4) as int] == encode_s(imm, rs2, rs1, f3, 0x23),
    ensures
        ({
            let ea = wrap_add(m.regs[rs1 as int], sext12(imm));
            let width: int = if f3 == 0 {
                1
            } else if f3 == 1 {
                2
            } else {
                4
            };
            if ea + width <= m.mem.len() {
                step_spec(m) == Ok::<Model, IsaError>(
                    (Model {
                        mem: mem_write(m.mem, ea as int, width, m.regs[rs2 as int]),
                        pc: wrap_add(m.pc, 4),
                        ..m
                    }),
                )
            } else {
                step_spec(m) == Err::<Model, IsaError>(IsaError::MemoryOutOfRange)
            }
        }),
{
    lemma_decode_encode_s(imm, rs2, rs1, f3, 0x23);
}

/// Law (round trip, branch): the word built for a branch mnemonic executes
/// as its effect — when the funct3 comparison of the two source registers
/// holds, the program counter becomes the encoded absolute target, else it
/// advances 4; the register file never changes.
pub proof fn lemma_round_trip_b(m: Model, f3: u32, target: u32, rs1: u32, rs2: u32)
    requires
        m.wf(),
        f3 == 0 || f3 == 1 || f3 == 4 || f3 == 5 || f3 == 6 || f3 == 7,
        target < 0x2000,
        target % 2 == 0,
        rs1 < 32,
        rs2 < 32,
        m.pc / 4 < m.prog.len(),
        m.prog[(m.pc / 4) as int] == encode_b(target, rs2, rs1, f3),
    ensures
        step_spec(m) == Ok::<Model, IsaError>(
            (Model {
                pc: if branch_taken(f3, m.regs[rs1 as int], m.regs[rs2 as int]) {
                    target
                } else {
                    wrap_add(m.pc, 4)
                },
                ..m
            }),
        ),
{
    lemma_decode_encode_b(target, rs2, rs1, f3);
}

/// Law (round trip, jal): the word built for `jal` executes as its effect —
/// `rd` receives `PC + 4` and the program counter becomes the encoded
/// absolute target.
pub proof fn lemma_round_trip_jal(m: Model, target: u32, rd: u32)
    requires
        m.wf(),
        target < 0x200000,
        target % 2 == 0,
        rd < 32,
        m.pc / 4 < m.prog.len(),
        m.prog[(m.pc / 4) as int] == encode_j(target, rd),
    ensures
        step_spec(m) == Ok::<Model, IsaError>(
            (Model { regs: write_reg(m.regs, rd, wrap_add(m.pc, 4)), pc: target, ..m }),
        ),
{
    lemma_decode_encode_j(target, rd);
}

/// Law (round trip, jalr): the word built for `jalr` executes as its effect
/// — `rd` receives `PC + 4` and the program counter becomes
/// `rs1 + sign_extend(imm)`.
pub proof fn lemma_round_trip_jalr(m: Model, imm: u32, rd: u32, rs1: u32)
    requires
        m.wf(),
        imm < 0x1000,
        rd < 32,
        rs1 < 32,
        m.pc / 4 < m.prog.len(),
        m.prog[(m.pc / 4) as int] == encode_i(imm, rs1, 0, rd, 0x67),
    ensures
        step_spec(m) == Ok::<Model, IsaError>(
            (Model {
                regs: write_reg(m.regs, rd, wrap_add(m.pc, 4)),
                pc: wrap_add(m.regs[rs1 as int], sext12(imm)),
                ..m
            }),
        ),
{
    lemma_decode_encode_i(imm, rs1, 0, rd, 0x67);
}

/// Law (round trip, lui): the word built for `lui` executes as its effect —
/// `rd` receives the 20-bit immediate shifted into the upper bits.
pub proof fn lemma_round_trip_lui(m: Model, imm20: u32, rd: u32)
    requires
        m.wf(),
        imm20 < 0x100000,
        rd < 32,
        m.pc / 4 < m.prog.len(),
        m.prog[(m.pc / 4) as int] == encode_u(imm20, rd, 0x37),
    ensures
        step_spec(m) == Ok::<Model, IsaError>(
            (Model { regs: write_reg(m.regs, rd, imm20 << 12), pc: wrap_add(m.pc, 4), ..m }),
        ),
{
    lemma_decode_encode_u(imm20, rd, 0x37);
}

/// Law (halt): a custom-extension word with funct3 0 halts the machine in
/// one step and leaves the program counter, registers, memory and output
/// exactly as they were.
pub proof fn lemma_halt_step(m: Model, w: u32)
    requires
        m.wf(),
        m.pc / 4 < m.prog.len(),
        m.prog[(m.pc / 4) as int] == w,
        opcode_of(w) == 0x0b,
        funct3_of(w) == 0,
    ensures
        step_spec(m) == Ok::<Model, IsaError>((Model { halted: true, ..m })),
{
}

/// Law: symbol resolution is pass-order-independent. An instruction that
/// names a label is encoded from the address the completed symbol table
/// maps that label to, and from nothing else: two branch or jump lines that
/// agree on everything but the label token — one label declared before the
/// line, one after, or any two names — encode to the identical word
/// whenever the table sends both labels to the same address.
pub proof fn lemma_symbol_resolution_address_only(
    ts1: Seq<Seq<char>>,
    ts2: Seq<Seq<char>>,
    sym: Map<Seq<char>, u32>,
)
    requires
        ts1.len() >= 2,
        ts2.len() == ts1.len(),
        forall|j: int| 0 <= j < ts1.len() - 1 ==> ts1[j] == ts2[j],
        b_funct(ts1[0]) is Some || ts1[0] == "jal"@ || ts1[0] == "jalr"@,
        sym.contains_key(ts1.last()),
        sym.contains_key(ts2.last()),
        sym[ts1.last()] == sym[ts2.last()],
    ensures
        encode_tokens_spec(ts1, sym) == encode_tokens_spec(ts2, sym),
{
    reveal_strlit("add");
    reveal_strlit("sub");
    reveal_strlit("sll");
    reveal_strlit("slt");
    reveal_strlit("sltu");
    reveal_strlit("xor");
    reveal_strlit("srl");
    reveal_strlit("sra");
    reveal_strlit("or");
    reveal_strlit("and");
    reveal_strlit("addi");
    reveal_strlit("slti");
    reveal_strlit("sltiu");
    reveal_strlit("xori");
    reveal_strlit("ori");
    reveal_strlit("andi");
    reveal_strlit("slli");
    reveal_strlit("srli");
    reveal_strlit("srai");
    reveal_strlit("lb");
    reveal_strlit("lh");
    reveal_strlit("lw");
    reveal_strlit("lbu");
    reveal_strlit("lhu");
    reveal_strlit("sb");
    reveal_strlit("sh");
    reveal_strlit("sw");
    reveal_strlit("beq");
    reveal_strlit("bne");
    reveal_strlit("blt");
    reveal_strlit("bge");
    reveal_strlit("bltu");
    reveal_strlit("bgeu");
    reveal_strlit("jal");
    reveal_strlit("jalr");
    reveal_strlit("lui");
    // Pin the first character of every mnemonic, so that the branch and jump
    // mnemonics are provably distinct from every other mnemonic and the
    // dispatch takes the same arm for both token sequences.
    assert("add"@[0] == 'a');
    assert("sub"@[0] == 's');
    assert("sll"@[0] == 's');
    assert("slt"@[0] == 's');
    assert("sltu"@[0] == 's');
    assert("xor"@[0] == 'x');
    assert("srl"@[0] == 's');
    assert("sra"@[0] == 's');
    assert("or"@[0] == 'o');
    assert("and"@[0] == 'a');
    assert("addi"@[0] == 'a');
    assert("slti"@[0] == 's');
    assert("sltiu"@[0] == 's');
    assert("xori"@[0] == 'x');
    assert("ori"@[0] == 'o');
    assert("andi"@[0] == 'a');
    assert("slli"@[0] == 's');
    assert("srli"@[0] == 's');
    assert("srai"@[0] == 's');
    assert("lb"@[0] == 'l');
    assert("lh"@[0] == 'l');
    assert("lw"@[0] == 'l');
    assert("lbu"@[0] == 'l');
    assert("lhu"@[0] == 'l');
    assert("sb"@[0] == 's');
    assert("sh"@[0] == 's');
    assert("sw"@[0] == 's');
    assert("beq"@[0] == 'b');
    assert("bne"@[0] == 'b');
    assert("blt"@[0] == 'b');
    assert("bge"@[0] == 'b');
    assert("bltu"@[0] == 'b');
    assert("bgeu"@[0] == 'b');
    assert("jal"@[0] == 'j');
    assert("jalr"@[0] == 'j');
    assert("lui"@[0] == 'l');
    assert(ts1[0] == ts2[0]);
    assert(r_funct(ts1[0]) is None);
    assert(i_funct(ts1[0]) is None);
    assert(s_funct(ts1[0]) is None);
    if b_funct(ts1[0]) is Some {
        if ts1.len() == 4 {
            assert(ts1[1] == ts2[1] && ts1[2] == ts2[2]);
            assert(ts1[3] == ts1.last() && ts2[3] == ts2.last());
            assert(b_line(ts1, sym) == b_line(ts2, sym));
        }
    } else if ts1[0] == "jal"@ {
        if ts1.len() == 3 {
            assert(ts1[1] == ts2[1]);
            assert(ts1[2] == ts1.last() && ts2[2] == ts2.last());
        }
        assert(jal_line(ts1, sym) == jal_line(ts2, sym));
    } else {
        if ts1.len() == 4 {
            assert(ts1[1] == ts2[1] && ts1[2] == ts2[2]);
            assert(ts1[3] == ts1.last() && ts2[3] == ts2.last());
        }
        assert(jalr_line(ts1, sym) == jalr_line(ts2, sym));
    }
}

} // verus!
