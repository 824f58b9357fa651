//! The simulator: architectural machine state (program counter, 32 registers,
//! byte-addressed data memory, instruction memory, halted flag) and the
//! decoder/executor that steps it one instruction at a time.
//!
//! The whole instruction semantics is written once, as the spec function
//! [`step_spec`]; every executable method is proved to follow it exactly.

use vstd::prelude::*;

use crate::errors::IsaError;
use crate::fields::branch_target_of;
use crate::fields::funct3_of;
use crate::fields::funct7_of;
use crate::fields::imm_i_of;
use crate::fields::imm_s_of;
use crate::fields::imm_u_of;
use crate::fields::jal_target_of;
use crate::fields::lemma_fields_in_range;
use crate::fields::lemma_mask5;
use crate::fields::opcode_of;
use crate::fields::rd_of;
use crate::fields::rs1_of;
use crate::fields::rs2_of;
use crate::fields::sext12;
use crate::fields::sext16;
use crate::fields::sext8;
use crate::fields::shift_left;
use crate::fields::shift_right;
use crate::fields::shift_right_arith;
use crate::fields::signed_lt;
use crate::fields::to_signed;
use crate::fields::wrap_add;
use crate::fields::wrap_sub;

verus! {

/// Bytes of data memory a fresh machine owns.
pub const DMEM_BYTES: usize = 4096;

/// The mathematical model of the machine state.
#[verifier::ext_equal]
pub ghost struct Model {
    /// Program counter, a byte address into instruction memory.
    pub pc: u32,
    /// The 32 general-purpose registers; index 0 is hardwired to 0.
    pub regs: Seq<u32>,
    /// Data memory, addressable by byte.
    pub mem: Seq<u8>,
    /// Instruction memory: word `i` lives at byte address `4 * i`.
    pub prog: Seq<u32>,
    /// Set by the halt instruction; never cleared.
    pub halted: bool,
    /// Values emitted by the custom print instruction, oldest first.
    pub output: Seq<u32>,
}

impl Model {
    /// Well-formedness: a full register file whose register 0 holds 0.
    pub open spec fn wf(self) -> bool {
        &&& self.regs.len() == 32
        &&& self.regs[0] == 0
    }
}

/// Writing the register file: a write to index 0 is discarded.
pub open spec fn write_reg(regs: Seq<u32>, rd: u32, v: u32) -> Seq<u32> {
    if rd == 0 {
        regs
    } else {
        regs.update(rd as int, v)
    }
}

/// A little-endian read of `width` bytes (1, 2 or 4) starting at `addr`.
pub open spec fn mem_read(mem: Seq<u8>, addr: int, width: int) -> u32
    recommends
        addr + width <= mem.len(),
        width == 1 || width == 2 || width == 4,
{
    if width == 1 {
        mem[addr] as u32
    } else if width == 2 {
        (mem[addr] as u32) | ((mem[addr + 1] as u32) << 8)
    } else {
        (mem[addr] as u32) | ((mem[addr + 1] as u32) << 8) | ((mem[addr + 2] as u32) << 16) | ((
        mem[addr + 3] as u32) << 24)
    }
}

/// A little-endian write of the low `width` bytes (1, 2 or 4) of `v` at `addr`.
pub open spec fn mem_write(mem: Seq<u8>, addr: int, width: int, v: u32) -> Seq<u8>
    recommends
        addr + width <= mem.len(),
        width == 1 || width == 2 || width == 4,
{
    if width == 1 {
        mem.update(addr, (v & 0xff) as u8)
    } else if width == 2 {
        mem.update(addr, (v & 0xff) as u8).update(addr + 1, ((v >> 8) & 0xff) as u8)
    } else {
        mem.update(addr, (v & 0xff) as u8).update(addr + 1, ((v >> 8) & 0xff) as u8).update(
            addr + 2,
            ((v >> 16) & 0xff) as u8,
        ).update(addr + 3, ((v >> 24) & 0xff) as u8)
    }
}

/// The machine has stopped: either the halt flag is set, or the program
/// counter has advanced past the end of instruction memory.
pub open spec fn is_halted_spec(m: Model) -> bool {
    m.halted || m.pc / 4 >= m.prog.len()
}

/// Semantics of the load opcode (0b0000011): effective address
/// `rs1 + sign_extend(imm)`, width and extension chosen by funct3.
pub open spec fn load_spec(m: Model, w: u32) -> Result<Model, IsaError>
    recommends
        m.wf(),
{
    let f3 = funct3_of(w);
    let ea = wrap_add(m.regs[rs1_of(w) as int], sext12(imm_i_of(w)));
    let width: u32 = if f3 == 0 || f3 == 4 {
        1
    } else if f3 == 1 || f3 == 5 {
        2
    } else {
        4
    };
    if !(f3 == 0 || f3 == 1 || f3 == 2 || f3 == 4 || f3 == 5) {
        Err(IsaError::UnsupportedOpcode)
    } else if ea + width > m.mem.len() {
        Err(IsaError::MemoryOutOfRange)
    } else {
        let raw = mem_read(m.mem, ea as int, width as int);
        let v = if f3 == 0 {
            sext8(raw)
        } else if f3 == 1 {
            sext16(raw)
        } else {
            raw
        };
        Ok(
            Model {
                regs: write_reg(m.regs, rd_of(w), v),
                pc: wrap_add(m.pc, 4),
                ..m
            },
        )
    }
}

/// Semantics of the store opcode (0b0100011): write the low bytes of `rs2`
/// at `rs1 + sign_extend(imm)`, width chosen by funct3.
pub open spec fn store_spec(m: Model, w: u32) -> Result<Model, IsaError>
    recommends
        m.wf(),
{
    let f3 = funct3_of(w);
    let ea = wrap_add(m.regs[rs1_of(w) as int], sext12(imm_s_of(w)));
    let width: u32 = if f3 == 0 {
        1
    } else if f3 == 1 {
        2
    } else {
        4
    };
    if !(f3 == 0 || f3 == 1 || f3 == 2) {
        Err(IsaError::UnsupportedOpcode)
    } else if ea + width > m.mem.len() {
        Err(IsaError::MemoryOutOfRange)
    } else {
        Ok(
            Model {
                mem: mem_write(m.mem, ea as int, width as int, m.regs[rs2_of(w) as int]),
                pc: wrap_add(m.pc, 4),
                ..m
            },
        )
    }
}

/// The op-imm result for `rs1` value `a` and the raw 12-bit immediate:
/// the immediate is sign-extended before combining with `a`, except for
/// shifts, where it holds the shift amount; `f7` bit 5 marks `srai`.
pub open spec fn imm_alu(f3: u32, f7: u32, a: u32, imm: u32) -> u32 {
    if f3 == 0 {
        wrap_add(a, sext12(imm))
    } else if f3 == 1 {
        shift_left(a, imm)
    } else if f3 == 2 {
        if signed_lt(a, sext12(imm)) {
            1u32
        } else {
            0u32
        }
    } else if f3 == 3 {
        if a < sext12(imm) {
            1u32
        } else {
            0u32
        }
    } else if f3 == 4 {
        a ^ sext12(imm)
    } else if f3 == 5 {
        if f7 & 0x20 != 0 {
            shift_right_arith(a, imm)
        } else {
            shift_right(a, imm)
        }
    } else if f3 == 6 {
        a | sext12(imm)
    } else {
        a & sext12(imm)
    }
}

/// The register-register result for operand values `a` and `b`; `f7` bit 5
/// distinguishes `sub` from `add` and `sra` from `srl`.
pub open spec fn alu(f3: u32, f7: u32, a: u32, b: u32) -> u32 {
    if f3 == 0 {
        if f7 & 0x20 != 0 {
            wrap_sub(a, b)
        } else {
            wrap_add(a, b)
        }
    } else if f3 == 1 {
        shift_left(a, b)
    } else if f3 == 2 {
        if signed_lt(a, b) {
            1u32
        } else {
            0u32
        }
    } else if f3 == 3 {
        if a < b {
            1u32
        } else {
            0u32
        }
    } else if f3 == 4 {
        a ^ b
    } else if f3 == 5 {
        if f7 & 0x20 != 0 {
            shift_right_arith(a, b)
        } else {
            shift_right(a, b)
        }
    } else if f3 == 6 {
        a | b
    } else {
        a & b
    }
}

/// Whether a branch with condition code `f3` is taken on operand values `a`
/// and `b`: equal, not equal, signed or unsigned less-than, signed or
/// unsigned greater-or-equal.
pub open spec fn branch_taken(f3: u32, a: u32, b: u32) -> bool
    recommends
        f3 == 0 || f3 == 1 || f3 == 4 || f3 == 5 || f3 == 6 || f3 == 7,
{
    if f3 == 0 {
        a == b
    } else if f3 == 1 {
        a != b
    } else if f3 == 4 {
        signed_lt(a, b)
    } else if f3 == 5 {
        !signed_lt(a, b)
    } else if f3 == 6 {
        a < b
    } else {
        a >= b
    }
}

/// Semantics of the op-imm opcode (0b0010011): the 12-bit immediate is
/// sign-extended before combining with `rs1`; for shifts the immediate field
/// holds the shift amount and bit 30 marks the arithmetic variant.
pub open spec fn op_imm_spec(m: Model, w: u32) -> Result<Model, IsaError>
    recommends
        m.wf(),
{
    let f3 = funct3_of(w);
    let a = m.regs[rs1_of(w) as int];
    let imm = imm_i_of(w);
    let v = imm_alu(f3, funct7_of(w), a, imm);
    Ok(
        Model {
            regs: write_reg(m.regs, rd_of(w), v),
            pc: wrap_add(m.pc, 4),
            ..m
        },
    )
}

/// Semantics of the op opcode (0b0110011): register-register arithmetic;
/// funct7 bit 5 distinguishes `sub` from `add` and `sra` from `srl`.
pub open spec fn op_spec(m: Model, w: u32) -> Result<Model, IsaError>
    recommends
        m.wf(),
{
    let f3 = funct3_of(w);
    let a = m.regs[rs1_of(w) as int];
    let b = m.regs[rs2_of(w) as int];
    let v = alu(f3, funct7_of(w), a, b);
    Ok(
        Model {
            regs: write_reg(m.regs, rd_of(w), v),
            pc: wrap_add(m.pc, 4),
            ..m
        },
    )
}

/// Semantics of lui (0b0110111): the 20-bit immediate, shifted into the upper
/// bits, is written to `rd`.
pub open spec fn lui_spec(m: Model, w: u32) -> Result<Model, IsaError>
    recommends
        m.wf(),
{
    Ok(
        Model {
            regs: write_reg(m.regs, rd_of(w), imm_u_of(w)),
            pc: wrap_add(m.pc, 4),
            ..m
        },
    )
}

/// Semantics of the branch opcode (0b1100011): compare `rs1` and `rs2` per
/// funct3; when the condition holds the program counter becomes the decoded
/// absolute target address, else it advances by 4.
pub open spec fn branch_spec(m: Model, w: u32) -> Result<Model, IsaError>
    recommends
        m.wf(),
{
    let f3 = funct3_of(w);
    let a = m.regs[rs1_of(w) as int];
    let b = m.regs[rs2_of(w) as int];
    if f3 == 0 || f3 == 1 || f3 == 4 || f3 == 5 || f3 == 6 || f3 == 7 {
        let taken = branch_taken(f3, a, b);
        Ok(
            Model {
                pc: if taken {
                    branch_target_of(w)
                } else {
                    wrap_add(m.pc, 4)
                },
                ..m
            },
        )
    } else {
        Err(IsaError::UnsupportedOpcode)
    }
}

/// Semantics of jal (0b1101111): `PC + 4` goes to `rd` (unless 0) and the
/// program counter becomes the decoded absolute target.
pub open spec fn jal_spec(m: Model, w: u32) -> Result<Model, IsaError>
    recommends
        m.wf(),
{
    Ok(
        Model {
            regs: write_reg(m.regs, rd_of(w), wrap_add(m.pc, 4)),
            pc: jal_target_of(w),
            ..m
        },
    )
}

/// Semantics of jalr (0b1100111): `PC + 4` goes to `rd` (unless 0) and the
/// program counter becomes `rs1 + sign_extend(imm)`.
pub open spec fn jalr_spec(m: Model, w: u32) -> Result<Model, IsaError>
    recommends
        m.wf(),
{
    let target = wrap_add(m.regs[rs1_of(w) as int], sext12(imm_i_of(w)));
    Ok(
        Model {
            regs: write_reg(m.regs, rd_of(w), wrap_add(m.pc, 4)),
            pc: target,
            ..m
        },
    )
}

/// Semantics of the custom extension opcode (0b0001011): funct3 0 halts the
/// machine with the program counter unchanged; funct3 1 emits the value of
/// the register named by the `rd` field and advances; anything else is an
/// unsupported custom operation.
pub open spec fn custom_spec(m: Model, w: u32) -> Result<Model, IsaError>
    recommends
        m.wf(),
{
    let f3 = funct3_of(w);
    if f3 == 0 {
        Ok(Model { halted: true, ..m })
    } else if f3 == 1 {
        Ok(
            Model {
                output: m.output.push(m.regs[rd_of(w) as int]),
                pc: wrap_add(m.pc, 4),
                ..m
            },
        )
    } else {
        Err(IsaError::UnsupportedCustomOp)
    }
}

/// One step of the machine: fetch the word at `PC / 4`, dispatch on the
/// opcode field, and produce the next state. `FetchOutOfRange` reports a
/// program counter past the end of instruction memory; callers treat it as
/// normal termination.
pub open spec fn step_spec(m: Model) -> Result<Model, IsaError>
    recommends
        m.wf(),
{
    if m.pc / 4 >= m.prog.len() {
        Err(IsaError::FetchOutOfRange)
    } else {
        let w = m.prog[(m.pc / 4) as int];
        let op = opcode_of(w);
        if op == 0x03 {
            load_spec(m, w)
        } else if op == 0x13 {
            op_imm_spec(m, w)
        } else if op == 0x23 {
            store_spec(m, w)
        } else if op == 0x33 {
            op_spec(m, w)
        } else if op == 0x37 {
            lui_spec(m, w)
        } else if op == 0x63 {
            branch_spec(m, w)
        } else if op == 0x67 {
            jalr_spec(m, w)
        } else if op == 0x6f {
            jal_spec(m, w)
        } else if op == 0x0b {
            custom_spec(m, w)
        } else {
            Err(IsaError::UnsupportedOpcode)
        }
    }
}

/// Stepping until the machine halts, an error surfaces, or `fuel` steps have
/// run: the state reached, and the error if one stopped the run.
pub open spec fn run_spec(m: Model, fuel: nat) -> (Model, Option<IsaError>)
    recommends
        m.wf(),
    decreases fuel,
{
    if fuel == 0 || is_halted_spec(m) {
        (m, None)
    } else {
        match step_spec(m) {
            Ok(m2) => run_spec(m2, (fuel - 1) as nat),
            Err(e) => (m, Some(e)),
        }
    }
}

/// The simulator's architectural state, exclusively owned and mutated in
/// place by each executed instruction.
pub struct State {
    address: u32,
    register: Vec<u32>,
    dmem: Vec<u8>,
    imem: Vec<u32>,
    halted: bool,
    output: Vec<u32>,
}

impl View for State {
    type V = Model;

    closed spec fn view(&self) -> Model {
        Model {
            pc: self.address,
            regs: self.register@,
            mem: self.dmem@,
            prog: self.imem@,
            halted: self.halted,
            output: self.output@,
        }
    }
}

/// A vector of `n` zero bytes.
fn zero_bytes(n: usize) -> (v: Vec<u8>)
    ensures
        v@.len() == n,
        forall|i: int| 0 <= i < n ==> v@[i] == 0,
{
    let mut v: Vec<u8> = Vec::new();
    let mut i: usize = 0;
    while i < n
        invariant
            i <= n,
            v@.len() == i,
            forall|j: int| 0 <= j < i ==> v@[j] == 0,
        decreases n - i,
    {
        v.push(0);
        i = i + 1;
    }
    v
}

/// A vector of `n` zero words.
fn zero_words(n: usize) -> (v: Vec<u32>)
    ensures
        v@.len() == n,
        forall|i: int| 0 <= i < n ==> v@[i] == 0,
{
    let mut v: Vec<u32> = Vec::new();
    let mut i: usize = 0;
    while i < n
        invariant
            i <= n,
            v@.len() == i,
            forall|j: int| 0 <= j < i ==> v@[j] == 0,
        decreases n - i,
    {
        v.push(0);
        i = i + 1;
    }
    v
}

/// Signed less-than on two register values, computed by flipping the sign
/// bits and comparing unsigned.
fn signed_less(a: u32, b: u32) -> (r: bool)
    ensures
        r == signed_lt(a, b),
{
    proof {
        assert(((a ^ 0x80000000u32) < (b ^ 0x80000000u32)) == (to_signed(a) < to_signed(b)))
            by (bit_vector);
    }
    (a ^ 0x80000000) < (b ^ 0x80000000)
}

impl State {
    /// A fresh machine: program counter 0, all registers 0, zeroed data
    /// memory, the given words as instruction memory, not halted.
    pub fn init(instructions: Vec<u32>) -> (s: State)
        ensures
            s@.wf(),
            s@.pc == 0,
            s@.regs =~= Seq::new(32, |i: int| 0u32),
            s@.mem =~= Seq::new(DMEM_BYTES as nat, |i: int| 0u8),
            s@.prog == instructions@,
            !s@.halted,
            s@.output =~= Seq::<u32>::empty(),
    {
        State {
            address: 0,
            register: zero_words(32),
            dmem: zero_bytes(DMEM_BYTES),
            imem: instructions,
            halted: false,
            output: Vec::new(),
        }
    }

    /// The value register `i` holds.
    pub fn read_register(&self, i: usize) -> (r: u32)
        requires
            self@.wf(),
            i < 32,
        ensures
            r == self@.regs[i as int],
    {
        self.register[i]
    }

    /// Write register `i`; a write to index 0 is a no-op, keeping register 0
    /// architecturally hardwired to 0.
    pub fn write_register(&mut self, i: usize, v: u32)
        requires
            old(self)@.wf(),
            i < 32,
        ensures
            final(self)@.wf(),
            final(self)@ =~= (Model { regs: write_reg(old(self)@.regs, i as u32, v), ..old(self)@ }),
    {
        if i != 0 {
            self.register.set(i, v);
        }
    }

    /// Read `width` bytes (1, 2 or 4) little-endian at byte address `addr`
    /// of data memory; an address range outside data memory is reported, not
    /// read.
    pub fn read_memory(&self, addr: u32, width: u32) -> (r: Result<u32, IsaError>)
        requires
            self@.wf(),
            width == 1 || width == 2 || width == 4,
        ensures
            addr + width <= self@.mem.len() ==> r == Ok::<u32, IsaError>(
                mem_read(self@.mem, addr as int, width as int),
            ),
            addr + width > self@.mem.len() ==> r == Err::<u32, IsaError>(IsaError::MemoryOutOfRange),
    {
        let len = self.dmem.len();
        if addr as usize >= len || width as usize > len - addr as usize {
            return Err(IsaError::MemoryOutOfRange);
        }
        let a = addr as usize;
        let b0 = self.dmem[a] as u32;
        if width == 1 {
            Ok(b0)
        } else if width == 2 {
            Ok(b0 | ((self.dmem[a + 1] as u32) << 8))
        } else {
            Ok(
                b0 | ((self.dmem[a + 1] as u32) << 8) | ((self.dmem[a + 2] as u32) << 16) | ((
                self.dmem[a + 3] as u32) << 24),
            )
        }
    }

    /// Write the low `width` bytes (1, 2 or 4) of `v` little-endian at byte
    /// address `addr`; an address range outside data memory is reported and
    /// the state is unchanged.
    pub fn write_memory(&mut self, addr: u32, width: u32, v: u32) -> (r: Result<(), IsaError>)
        requires
            old(self)@.wf(),
            width == 1 || width == 2 || width == 4,
        ensures
            final(self)@.wf(),
            addr + width <= old(self)@.mem.len() ==> r == Ok::<(), IsaError>(()) && final(self)@
                =~= (Model {
                mem: mem_write(old(self)@.mem, addr as int, width as int, v),
                ..old(self)@
            }),
            addr + width > old(self)@.mem.len() ==> r == Err::<(), IsaError>(
                IsaError::MemoryOutOfRange,
            ) && final(self)@ == old(self)@,
    {
        let len = self.dmem.len();
        if addr as usize >= len || width as usize > len - addr as usize {
            return Err(IsaError::MemoryOutOfRange);
        }
        let a = addr as usize;
        self.dmem.set(a, (v & 0xff) as u8);
        if width >= 2 {
            self.dmem.set(a + 1, ((v >> 8) & 0xff) as u8);
        }
        if width == 4 {
            self.dmem.set(a + 2, ((v >> 16) & 0xff) as u8);
            self.dmem.set(a + 3, ((v >> 24) & 0xff) as u8);
        }
        Ok(())
    }

    /// Advance the program counter by one instruction width (4 bytes),
    /// modulo 2^32.
    pub fn advance_pc(&mut self)
        requires
            old(self)@.wf(),
        ensures
            final(self)@.wf(),
            final(self)@ =~= (Model { pc: wrap_add(old(self)@.pc, 4), ..old(self)@ }),
    {
        self.address = self.address.wrapping_add(4);
    }

    /// Set the halted flag.
    pub fn set_halted(&mut self)
        requires
            old(self)@.wf(),
        ensures
            final(self)@.wf(),
            final(self)@ =~= (Model { halted: true, ..old(self)@ }),
    {
        self.halted = true;
    }

    /// The machine has stopped: the halt flag is set, or the program counter
    /// is past the end of instruction memory (normal fall-off-the-end
    /// termination).
    pub fn is_halted(&self) -> (r: bool)
        ensures
            r == is_halted_spec(self@),
    {
        if self.halted {
            return true;
        }
        let addr = (self.address / 4) as usize;
        addr >= self.imem.len()
    }

    /// The original name of [`Self::is_halted`].
    pub fn is_exit(&self) -> (r: bool)
        ensures
            r == is_halted_spec(self@),
    {
        self.is_halted()
    }

    /// The values the custom print instruction has emitted so far, oldest
    /// first.
    pub fn output_values(&self) -> (r: &Vec<u32>)
        ensures
            r@ == self@.output,
    {
        &self.output
    }

    /// Execute one load instruction word.
    pub fn exec_load(&mut self, instruction: u32) -> (r: Result<(), IsaError>)
        requires
            old(self)@.wf(),
        ensures
            final(self)@.wf(),
            (match load_spec(old(self)@, instruction) {
                Ok(m) => r == Ok::<(), IsaError>(()) && final(self)@ == m,
                Err(e) => r == Err::<(), IsaError>(e) && final(self)@ == old(self)@,
            }),
    {
        proof {
            lemma_fields_in_range(instruction);
        }
        let f3 = (instruction >> 12) & 0x7;
        let rd = ((instruction >> 7) & 0x1f) as usize;
        let rs1 = ((instruction >> 15) & 0x1f) as usize;
        let imm = (instruction >> 20) & 0xfff;
        if !(f3 == 0 || f3 == 1 || f3 == 2 || f3 == 4 || f3 == 5) {
            return Err(IsaError::UnsupportedOpcode);
        }
        let base = self.read_register(rs1);
        let simm = if imm & 0x800 != 0 {
            imm | 0xfffff000
        } else {
            imm & 0xfff
        };
        let ea = base.wrapping_add(simm);
        let width: u32 = if f3 == 0 || f3 == 4 {
            1
        } else if f3 == 1 || f3 == 5 {
            2
        } else {
            4
        };
        let raw = match self.read_memory(ea, width) {
            Ok(x) => x,
            Err(e) => {
                return Err(e);
            },
        };
        let v = if f3 == 0 {
            if raw & 0x80 != 0 {
                (raw & 0xff) | 0xffffff00
            } else {
                raw & 0xff
            }
        } else if f3 == 1 {
            if raw & 0x8000 != 0 {
                (raw & 0xffff) | 0xffff0000
            } else {
                raw & 0xffff
            }
        } else {
            raw
        };
        self.write_register(rd, v);
        self.advance_pc();
        Ok(())
    }

    /// Execute one store instruction word.
    pub fn exec_store(&mut self, instruction: u32) -> (r: Result<(), IsaError>)
        requires
            old(self)@.wf(),
        ensures
            final(self)@.wf(),
            (match store_spec(old(self)@, instruction) {
                Ok(m) => r == Ok::<(), IsaError>(()) && final(self)@ == m,
                Err(e) => r == Err::<(), IsaError>(e) && final(self)@ == old(self)@,
            }),
    {
        proof {
            lemma_fields_in_range(instruction);
        }
        let f3 = (instruction >> 12) & 0x7;
        let rs1 = ((instruction >> 15) & 0x1f) as usize;
        let rs2 = ((instruction >> 20) & 0x1f) as usize;
        let imm = (((instruction >> 25) & 0x7f) << 5) | ((instruction >> 7) & 0x1f);
        if !(f3 == 0 || f3 == 1 || f3 == 2) {
            return Err(IsaError::UnsupportedOpcode);
        }
        let base = self.read_register(rs1);
        let simm = if imm & 0x800 != 0 {
            imm | 0xfffff000
        } else {
            imm & 0xfff
        };
        let ea = base.wrapping_add(simm);
        let width: u32 = if f3 == 0 {
            1
        } else if f3 == 1 {
            2
        } else {
            4
        };
        let v = self.read_register(rs2);
        match self.write_memory(ea, width, v) {
            Ok(_) => {},
            Err(e) => {
                return Err(e);
            },
        }
        self.advance_pc();
        Ok(())
    }

    /// Execute one op-imm instruction word.
    pub fn exec_op_imm(&mut self, instruction: u32) -> (r: Result<(), IsaError>)
        requires
            old(self)@.wf(),
        ensures
            final(self)@.wf(),
            (match op_imm_spec(old(self)@, instruction) {
                Ok(m) => r == Ok::<(), IsaError>(()) && final(self)@ == m,
                Err(e) => r == Err::<(), IsaError>(e) && final(self)@ == old(self)@,
            }),
    {
        proof {
            lemma_fields_in_range(instruction);
            lemma_mask5(imm_i_of(instruction));
        }
        let f3 = (instruction >> 12) & 0x7;
        let rd = ((instruction >> 7) & 0x1f) as usize;
        let rs1 = ((instruction >> 15) & 0x1f) as usize;
        let imm = (instruction >> 20) & 0xfff;
        let a = self.read_register(rs1);
        let simm = if imm & 0x800 != 0 {
            imm | 0xfffff000
        } else {
            imm & 0xfff
        };
        let v = if f3 == 0 {
            a.wrapping_add(simm)
        } else if f3 == 1 {
            a << (imm & 0x1f)
        } else if f3 == 2 {
            if signed_less(a, simm) {
                1
            } else {
                0
            }
        } else if f3 == 3 {
            if a < simm {
                1
            } else {
                0
            }
        } else if f3 == 4 {
            a ^ simm
        } else if f3 == 5 {
            if ((instruction >> 25) & 0x7f) & 0x20 != 0 {
                sra_exec(a, imm)
            } else {
                a >> (imm & 0x1f)
            }
        } else if f3 == 6 {
            a | simm
        } else {
            a & simm
        };
        self.write_register(rd, v);
        self.advance_pc();
        Ok(())
    }

    /// Execute one op (register-register) instruction word.
    pub fn exec_op(&mut self, instruction: u32) -> (r: Result<(), IsaError>)
        requires
            old(self)@.wf(),
        ensures
            final(self)@.wf(),
            (match op_spec(old(self)@, instruction) {
                Ok(m) => r == Ok::<(), IsaError>(()) && final(self)@ == m,
                Err(e) => r == Err::<(), IsaError>(e) && final(self)@ == old(self)@,
            }),
    {
        proof {
            lemma_fields_in_range(instruction);
        }
        let f3 = (instruction >> 12) & 0x7;
        let rd = ((instruction >> 7) & 0x1f) as usize;
        let rs1 = ((instruction >> 15) & 0x1f) as usize;
        let rs2 = ((instruction >> 20) & 0x1f) as usize;
        let a = self.read_register(rs1);
        let b = self.read_register(rs2);
        proof {
            lemma_mask5(old(self)@.regs[rs2_of(instruction) as int]);
        }
        let v = if f3 == 0 {
            if ((instruction >> 25) & 0x7f) & 0x20 != 0 {
                a.wrapping_sub(b)
            } else {
                a.wrapping_add(b)
            }
        } else if f3 == 1 {
            a << (b & 0x1f)
        } else if f3 == 2 {
            if signed_less(a, b) {
                1
            } else {
                0
            }
        } else if f3 == 3 {
            if a < b {
                1
            } else {
                0
            }
        } else if f3 == 4 {
            a ^ b
        } else if f3 == 5 {
            if ((instruction >> 25) & 0x7f) & 0x20 != 0 {
                sra_exec(a, b)
            } else {
                a >> (b & 0x1f)
            }
        } else if f3 == 6 {
            a | b
        } else {
            a & b
        };
        self.write_register(rd, v);
        self.advance_pc();
        Ok(())
    }

    /// Execute one lui instruction word.
    pub fn exec_lui(&mut self, instruction: u32) -> (r: Result<(), IsaError>)
        requires
            old(self)@.wf(),
        ensures
            final(self)@.wf(),
            (match lui_spec(old(self)@, instruction) {
                Ok(m) => r == Ok::<(), IsaError>(()) && final(self)@ == m,
                Err(e) => r == Err::<(), IsaError>(e) && final(self)@ == old(self)@,
            }),
    {
        proof {
            lemma_fields_in_range(instruction);
        }
        let rd = ((instruction >> 7) & 0x1f) as usize;
        self.write_register(rd, instruction & 0xfffff000);
        self.advance_pc();
        Ok(())
    }

    /// Execute one branch instruction word.
    pub fn exec_branch(&mut self, instruction: u32) -> (r: Result<(), IsaError>)
        requires
            old(self)@.wf(),
        ensures
            final(self)@.wf(),
            (match branch_spec(old(self)@, instruction) {
                Ok(m) => r == Ok::<(), IsaError>(()) && final(self)@ == m,
                Err(e) => r == Err::<(), IsaError>(e) && final(self)@ == old(self)@,
            }),
    {
        proof {
            lemma_fields_in_range(instruction);
        }
        let f3 = (instruction >> 12) & 0x7;
        let rs1 = ((instruction >> 15) & 0x1f) as usize;
        let rs2 = ((instruction >> 20) & 0x1f) as usize;
        if !(f3 == 0 || f3 == 1 || f3 == 4 || f3 == 5 || f3 == 6 || f3 == 7) {
            return Err(IsaError::UnsupportedOpcode);
        }
        let a = self.read_register(rs1);
        let b = self.read_register(rs2);
        let taken = if f3 == 0 {
            a == b
        } else if f3 == 1 {
            a != b
        } else if f3 == 4 {
            signed_less(a, b)
        } else if f3 == 5 {
            !signed_less(a, b)
        } else if f3 == 6 {
            a < b
        } else {
            a >= b
        };
        if taken {
            let target = (((instruction >> 31) & 1) << 12) | (((instruction >> 7) & 1) << 11) | ((
            (instruction >> 25) & 0x3f) << 5) | (((instruction >> 8) & 0xf) << 1);
            self.address = target;
        } else {
            self.advance_pc();
        }
        Ok(())
    }

    /// Execute one jal instruction word.
    pub fn exec_jal(&mut self, instruction: u32) -> (r: Result<(), IsaError>)
        requires
            old(self)@.wf(),
        ensures
            final(self)@.wf(),
            (match jal_spec(old(self)@, instruction) {
                Ok(m) => r == Ok::<(), IsaError>(()) && final(self)@ == m,
                Err(e) => r == Err::<(), IsaError>(e) && final(self)@ == old(self)@,
            }),
    {
        proof {
            lemma_fields_in_range(instruction);
        }
        let rd = ((instruction >> 7) & 0x1f) as usize;
        let target = (((instruction >> 31) & 1) << 20) | (((instruction >> 12) & 0xff) << 12) | ((
        (instruction >> 20) & 1) << 11) | (((instruction >> 21) & 0x3ff) << 1);
        let link = self.address.wrapping_add(4);
        self.write_register(rd, link);
        self.address = target;
        Ok(())
    }

    /// Execute one jalr instruction word.
    pub fn exec_jalr(&mut self, instruction: u32) -> (r: Result<(), IsaError>)
        requires
            old(self)@.wf(),
        ensures
            final(self)@.wf(),
            (match jalr_spec(old(self)@, instruction) {
                Ok(m) => r == Ok::<(), IsaError>(()) && final(self)@ == m,
                Err(e) => r == Err::<(), IsaError>(e) && final(self)@ == old(self)@,
            }),
    {
        proof {
            lemma_fields_in_range(instruction);
        }
        let rd = ((instruction >> 7) & 0x1f) as usize;
        let rs1 = ((instruction >> 15) & 0x1f) as usize;
        let imm = (instruction >> 20) & 0xfff;
        let base = self.read_register(rs1);
        let simm = if imm & 0x800 != 0 {
            imm | 0xfffff000
        } else {
            imm & 0xfff
        };
        let target = base.wrapping_add(simm);
        let link = self.address.wrapping_add(4);
        self.write_register(rd, link);
        self.address = target;
        Ok(())
    }

    /// Execute one custom-extension instruction word: funct3 0 halts, funct3
    /// 1 emits the value of the register named by the `rd` field.
    pub fn exec_custom(&mut self, instruction: u32) -> (r: Result<(), IsaError>)
        requires
            old(self)@.wf(),
        ensures
            final(self)@.wf(),
            (match custom_spec(old(self)@, instruction) {
                Ok(m) => r == Ok::<(), IsaError>(()) && final(self)@ == m,
                Err(e) => r == Err::<(), IsaError>(e) && final(self)@ == old(self)@,
            }),
    {
        proof {
            lemma_fields_in_range(instruction);
        }
        let f3 = (instruction >> 12) & 0x7;
        let rd = ((instruction >> 7) & 0x1f) as usize;
        if f3 == 0 {
            self.halted = true;
            Ok(())
        } else if f3 == 1 {
            let v = self.read_register(rd);
            self.output.push(v);
            self.advance_pc();
            Ok(())
        } else {
            Err(IsaError::UnsupportedCustomOp)
        }
    }

    /// One fetch/decode/execute step: the state transition of `step_spec`,
    /// atomically; on an error the state is unchanged.
    pub fn step(&mut self) -> (r: Result<(), IsaError>)
        requires
            old(self)@.wf(),
        ensures
            final(self)@.wf(),
            (match step_spec(old(self)@) {
                Ok(m) => r == Ok::<(), IsaError>(()) && final(self)@ == m,
                Err(e) => r == Err::<(), IsaError>(e) && final(self)@ == old(self)@,
            }),
    {
        let idx = (self.address / 4) as usize;
        if idx >= self.imem.len() {
            return Err(IsaError::FetchOutOfRange);
        }
        let instruction = self.imem[idx];
        let opcode = instruction & 0x7f;
        if opcode == 0x03 {
            self.exec_load(instruction)
        } else if opcode == 0x13 {
            self.exec_op_imm(instruction)
        } else if opcode == 0x23 {
            self.exec_store(instruction)
        } else if opcode == 0x33 {
            self.exec_op(instruction)
        } else if opcode == 0x37 {
            self.exec_lui(instruction)
        } else if opcode == 0x63 {
            self.exec_branch(instruction)
        } else if opcode == 0x67 {
            self.exec_jalr(instruction)
        } else if opcode == 0x6f {
            self.exec_jal(instruction)
        } else if opcode == 0x0b {
            self.exec_custom(instruction)
        } else {
            Err(IsaError::UnsupportedOpcode)
        }
    }

    /// Step repeatedly until the machine halts, an error surfaces, or
    /// `max_steps` steps have run.
    pub fn run(&mut self, max_steps: usize) -> (r: Result<(), IsaError>)
        requires
            old(self)@.wf(),
        ensures
            final(self)@.wf(),
            final(self)@ == run_spec(old(self)@, max_steps as nat).0,
            (match run_spec(old(self)@, max_steps as nat).1 {
                None => r == Ok::<(), IsaError>(()),
                Some(e) => r == Err::<(), IsaError>(e),
            }),
    {
        let ghost m0 = self@;
        let mut left: usize = max_steps;
        loop
            invariant
                self@.wf(),
                left <= max_steps,
                m0 == old(self)@,
                run_spec(m0, max_steps as nat) == run_spec(self@, left as nat),
            decreases left,
        {
            if left == 0 {
                proof {
                    assert(run_spec(self@, left as nat) == (self@, None::<IsaError>));
                }
                return Ok(());
            }
            if self.is_exit() {
                proof {
                    assert(run_spec(self@, left as nat) == (self@, None::<IsaError>));
                }
                return Ok(());
            }
            let res = self.step();
            match res {
                Ok(_) => {},
                Err(e) => {
                    return Err(e);
                },
            }
            left = left - 1;
        }
    }
}

/// Arithmetic right shift by the low 5 bits of `sh`.
fn sra_exec(x: u32, sh: u32) -> (r: u32)
    ensures
        r == shift_right_arith(x, sh),
{
    proof {
        lemma_mask5(sh);
    }
    let s5 = sh & 0x1f;
    if x & 0x80000000 != 0 {
        (x >> s5) | !(0xffffffffu32 >> s5)
    } else {
        x >> s5
    }
}

} // verus!
