//! The register name table: symbolic register names, numeric (`x0`..`x31`)
//! and ABI aliases (`zero`, `ra`, `sp`, ..., `t6`), resolved to their 5-bit
//! index. Register `x8` doubles as the frame pointer `fp` beside `s0`.

use vstd::prelude::*;

use crate::errors::IsaError;
use crate::text::str_eq;

verus! {

/// The index a register name denotes, or nothing for any other string.
pub open spec fn reg_index(s: Seq<char>) -> Option<u32> {
    if s == "x0"@ || s == "zero"@ {
        Some(0u32)
    } else if s == "x1"@ || s == "ra"@ {
        Some(1u32)
    } else if s == "x2"@ || s == "sp"@ {
        Some(2u32)
    } else if s == "x3"@ || s == "gp"@ {
        Some(3u32)
    } else if s == "x4"@ || s == "tp"@ {
        Some(4u32)
    } else if s == "x5"@ || s == "t0"@ {
        Some(5u32)
    } else if s == "x6"@ || s == "t1"@ {
        Some(6u32)
    } else if s == "x7"@ || s == "t2"@ {
        Some(7u32)
    } else if s == "x8"@ || s == "s0"@ || s == "fp"@ {
        Some(8u32)
    } else if s == "x9"@ || s == "s1"@ {
        Some(9u32)
    } else if s == "x10"@ || s == "a0"@ {
        Some(10u32)
    } else if s == "x11"@ || s == "a1"@ {
        Some(11u32)
    } else if s == "x12"@ || s == "a2"@ {
        Some(12u32)
    } else if s == "x13"@ || s == "a3"@ {
        Some(13u32)
    } else if s == "x14"@ || s == "a4"@ {
        Some(14u32)
    } else if s == "x15"@ || s == "a5"@ {
        Some(15u32)
    } else if s == "x16"@ || s == "a6"@ {
        Some(16u32)
    } else if s == "x17"@ || s == "a7"@ {
        Some(17u32)
    } else if s == "x18"@ || s == "s2"@ {
        Some(18u32)
    } else if s == "x19"@ || s == "s3"@ {
        Some(19u32)
    } else if s == "x20"@ || s == "s4"@ {
        Some(20u32)
    } else if s == "x21"@ || s == "s5"@ {
        Some(21u32)
    } else if s == "x22"@ || s == "s6"@ {
        Some(22u32)
    } else if s == "x23"@ || s == "s7"@ {
        Some(23u32)
    } else if s == "x24"@ || s == "s8"@ {
        Some(24u32)
    } else if s == "x25"@ || s == "s9"@ {
        Some(25u32)
    } else if s == "x26"@ || s == "s10"@ {
        Some(26u32)
    } else if s == "x27"@ || s == "s11"@ {
        Some(27u32)
    } else if s == "x28"@ || s == "t3"@ {
        Some(28u32)
    } else if s == "x29"@ || s == "t4"@ {
        Some(29u32)
    } else if s == "x30"@ || s == "t5"@ {
        Some(30u32)
    } else if s == "x31"@ || s == "t6"@ {
        Some(31u32)
    } else {
        None
    }
}

/// Resolve a register name, numeric or ABI form, to its index in [0, 31].
pub fn register(reg: &String) -> (r: Result<u32, IsaError>)
    ensures
        (match reg_index(reg@) {
            Some(i) => r == Ok::<u32, IsaError>(i) && i < 32,
            None => r == Err::<u32, IsaError>(IsaError::UnknownRegister),
        }),
{
    if str_eq(reg.as_str(), "x0") || str_eq(reg.as_str(), "zero") {
        Ok(0)
    } else if str_eq(reg.as_str(), "x1") || str_eq(reg.as_str(), "ra") {
        Ok(1)
    } else if str_eq(reg.as_str(), "x2") || str_eq(reg.as_str(), "sp") {
        Ok(2)
    } else if str_eq(reg.as_str(), "x3") || str_eq(reg.as_str(), "gp") {
        Ok(3)
    } else if str_eq(reg.as_str(), "x4") || str_eq(reg.as_str(), "tp") {
        Ok(4)
    } else if str_eq(reg.as_str(), "x5") || str_eq(reg.as_str(), "t0") {
        Ok(5)
    } else if str_eq(reg.as_str(), "x6") || str_eq(reg.as_str(), "t1") {
        Ok(6)
    } else if str_eq(reg.as_str(), "x7") || str_eq(reg.as_str(), "t2") {
        Ok(7)
    } else if str_eq(reg.as_str(), "x8") || str_eq(reg.as_str(), "s0") || str_eq(reg.as_str(), "fp") {
        Ok(8)
    } else if str_eq(reg.as_str(), "x9") || str_eq(reg.as_str(), "s1") {
        Ok(9)
    } else if str_eq(reg.as_str(), "x10") || str_eq(reg.as_str(), "a0") {
        Ok(10)
    } else if str_eq(reg.as_str(), "x11") || str_eq(reg.as_str(), "a1") {
        Ok(11)
    } else if str_eq(reg.as_str(), "x12") || str_eq(reg.as_str(), "a2") {
        Ok(12)
    } else if str_eq(reg.as_str(), "x13") || str_eq(reg.as_str(), "a3") {
        Ok(13)
    } else if str_eq(reg.as_str(), "x14") || str_eq(reg.as_str(), "a4") {
        Ok(14)
    } else if str_eq(reg.as_str(), "x15") || str_eq(reg.as_str(), "a5") {
        Ok(15)
    } else if str_eq(reg.as_str(), "x16") || str_eq(reg.as_str(), "a6") {
        Ok(16)
    } else if str_eq(reg.as_str(), "x17") || str_eq(reg.as_str(), "a7") {
        Ok(17)
    } else if str_eq(reg.as_str(), "x18") || str_eq(reg.as_str(), "s2") {
        Ok(18)
    } else if str_eq(reg.as_str(), "x19") || str_eq(reg.as_str(), "s3") {
        Ok(19)
    } else if str_eq(reg.as_str(), "x20") || str_eq(reg.as_str(), "s4") {
        Ok(20)
    } else if str_eq(reg.as_str(), "x21") || str_eq(reg.as_str(), "s5") {
        Ok(21)
    } else if str_eq(reg.as_str(), "x22") || str_eq(reg.as_str(), "s6") {
        Ok(22)
    } else if str_eq(reg.as_str(), "x23") || str_eq(reg.as_str(), "s7") {
        Ok(23)
    } else if str_eq(reg.as_str(), "x24") || str_eq(reg.as_str(), "s8") {
        Ok(24)
    } else if str_eq(reg.as_str(), "x25") || str_eq(reg.as_str(), "s9") {
        Ok(25)
    } else if str_eq(reg.as_str(), "x26") || str_eq(reg.as_str(), "s10") {
        Ok(26)
    } else if str_eq(reg.as_str(), "x27") || str_eq(reg.as_str(), "s11") {
        Ok(27)
    } else if str_eq(reg.as_str(), "x28") || str_eq(reg.as_str(), "t3") {
        Ok(28)
    } else if str_eq(reg.as_str(), "x29") || str_eq(reg.as_str(), "t4") {
        Ok(29)
    } else if str_eq(reg.as_str(), "x30") || str_eq(reg.as_str(), "t5") {
        Ok(30)
    } else if str_eq(reg.as_str(), "x31") || str_eq(reg.as_str(), "t6") {
        Ok(31)
    } else {
        Err(IsaError::UnknownRegister)
    }
}

} // verus!
