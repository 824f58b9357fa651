//! Error kinds shared by the assembler and the simulator.

use vstd::prelude::*;

verus! {

/// Every way in which assembling or executing a program can fail.
///
/// `FetchOutOfRange` is special: the executor reports it when the program
/// counter points past the end of instruction memory, and callers treat it as
/// normal program termination, not as a fault.
#[derive(Clone, Copy, Debug, PartialEq, Eq, Structural)]
pub enum IsaError {
    /// A mnemonic that is not in the instruction set.
    UnknownOpcode,
    /// A register operand that is neither `x0`..`x31` nor an ABI alias.
    UnknownRegister,
    /// A label that is referenced but never declared.
    UndefinedSymbol,
    /// A line with the wrong operand count or a malformed operand.
    MalformedLine,
    /// The program counter points past the end of instruction memory.
    FetchOutOfRange,
    /// A custom-extension instruction with an unsupported `funct3` field.
    UnsupportedCustomOp,
    /// A machine word whose opcode field is not in the implemented set.
    UnsupportedOpcode,
    /// A load or store whose effective address lies outside data memory.
    MemoryOutOfRange,
}

} // verus!
