use rv32_tools::encoder::assemble;
use rv32_tools::encoder::parse_b_type;
use rv32_tools::encoder::parse_i_type;
use rv32_tools::encoder::parse_jal;
use rv32_tools::encoder::parse_jalr;
use rv32_tools::encoder::parse_line;
use rv32_tools::encoder::parse_lui;
use rv32_tools::encoder::parse_r_type;
use rv32_tools::encoder::parse_s_type;
use rv32_tools::errors::IsaError;
use rv32_tools::regs::register;
use rv32_tools::symtab::build_symbols;
use rv32_tools::symtab::SymbolTable;

fn empty() -> SymbolTable {
    SymbolTable::new()
}

#[test]
fn register_numeric_names() {
    for i in 0..32u32 {
        let name = format!("x{}", i);
        assert_eq!(register(&name), Ok(i));
    }
}

#[test]
fn register_abi_names() {
    let pairs = [
        ("zero", 0),
        ("ra", 1),
        ("sp", 2),
        ("gp", 3),
        ("tp", 4),
        ("t0", 5),
        ("t1", 6),
        ("t2", 7),
        ("s0", 8),
        ("fp", 8),
        ("s1", 9),
        ("a0", 10),
        ("a7", 17),
        ("s2", 18),
        ("s11", 27),
        ("t3", 28),
        ("t6", 31),
    ];
    for (name, idx) in pairs.iter() {
        assert_eq!(register(&name.to_string()), Ok(*idx));
    }
}

#[test]
fn register_unknown_name() {
    assert_eq!(register(&"x32".to_string()), Err(IsaError::UnknownRegister));
    assert_eq!(register(&"q7".to_string()), Err(IsaError::UnknownRegister));
    assert_eq!(register(&"".to_string()), Err(IsaError::UnknownRegister));
}

#[test]
fn encode_r_type_add() {
    // add x1, x2, x3: funct7 0, rs2 3, rs1 2, funct3 0, rd 1, opcode 0110011.
    assert_eq!(parse_r_type("add x1, x2, x3"), Ok(0x003100B3));
}

#[test]
fn encode_r_type_sub_differs_only_in_bit30() {
    let add = parse_r_type("add x1, x2, x3").unwrap();
    let sub = parse_r_type("sub x1, x2, x3").unwrap();
    assert_eq!(add ^ sub, 1 << 30);
}

#[test]
fn encode_i_type_addi_minus_one() {
    // addi x5, x0, -1: the 12-bit immediate stores -1 as 0xfff verbatim.
    assert_eq!(parse_i_type("addi x5, x0, -1"), Ok(0xFFF00293));
}

#[test]
fn encode_i_type_srai_sets_bit30() {
    let srli = parse_i_type("srli x1, x2, 3").unwrap();
    let srai = parse_i_type("srai x1, x2, 3").unwrap();
    assert_eq!(srli ^ srai, 1 << 30);
}

#[test]
fn encode_s_type_sw_2047() {
    // sw x2, x1, 2047: value x2 stored at x1 + 2047; imm split 0x3f / 0x1f.
    assert_eq!(parse_s_type("sw x2, x1, 2047"), Ok(0x7E20AFA3));
}

#[test]
fn encode_b_type_absolute_target() {
    let mut t = empty();
    t.define("loop".to_string(), 8);
    // beq x1, x2, loop with target 8: bit 3 of the target lands in bit 8.
    let w = parse_b_type("beq x1, x2, loop", &t).unwrap();
    assert_eq!(w & 0x7f, 0x63);
    assert_eq!((w >> 8) & 0xf, 4); // target bits 4:1 == 0b0100
    assert_eq!((w >> 15) & 0x1f, 1);
    assert_eq!((w >> 20) & 0x1f, 2);
}

#[test]
fn encode_jal_jalr_lui() {
    let mut t = empty();
    t.define("f".to_string(), 12);
    let jal = parse_jal("jal x1, f", &t).unwrap();
    assert_eq!(jal & 0x7f, 0x6f);
    assert_eq!((jal >> 7) & 0x1f, 1);
    // target 12: bits 19:12 of the target sit in word bits 19:12.
    assert_eq!((jal >> 21) & 0x3ff, 6); // bits 10:1 of 12 == 6
    let jalr = parse_jalr("jalr x1, x0, f", &t).unwrap();
    assert_eq!(jalr & 0x7f, 0x67);
    assert_eq!(jalr >> 20, 12);
    let lui = parse_lui("lui x7, 1048575").unwrap();
    assert_eq!(lui, (0xFFFFF << 12) | (7 << 7) | 0x37);
}

#[test]
fn encode_errors() {
    let t = empty();
    assert_eq!(parse_line("frob x1, x2, x3", &t), Err(IsaError::UnknownOpcode));
    assert_eq!(parse_line("add x1, x2", &t), Err(IsaError::MalformedLine));
    assert_eq!(parse_line("add x1, x2, x99", &t), Err(IsaError::UnknownRegister));
    assert_eq!(parse_line("beq x1, x2, nowhere", &t), Err(IsaError::UndefinedSymbol));
    assert_eq!(parse_line("addi x1, x2, 99999", &t), Err(IsaError::MalformedLine));
    assert_eq!(parse_line("slli x1, x2, 32", &t), Err(IsaError::MalformedLine));
    assert_eq!(parse_line("", &t), Err(IsaError::MalformedLine));
}

#[test]
fn symbol_table_resolves_and_overwrites() {
    let mut t = empty();
    assert_eq!(t.resolve("a"), Err(IsaError::UndefinedSymbol));
    t.define("a".to_string(), 4);
    t.define("b".to_string(), 8);
    assert_eq!(t.resolve("a"), Ok(4));
    assert_eq!(t.resolve("b"), Ok(8));
    t.define("a".to_string(), 12);
    assert_eq!(t.resolve("a"), Ok(12));
}

#[test]
fn first_pass_label_addresses() {
    // A label denotes the address of the next instruction and takes no slot.
    let lines = vec![
        "start:".to_string(),
        "addi x1, x0, 1".to_string(),
        "mid:".to_string(),
        "addi x2, x0, 2".to_string(),
        "end:".to_string(),
    ];
    let t = build_symbols(&lines);
    assert_eq!(t.resolve("start"), Ok(0));
    assert_eq!(t.resolve("mid"), Ok(4));
    assert_eq!(t.resolve("end"), Ok(8));
}

#[test]
fn forward_and_backward_references_encode_alike() {
    // A branch to a forward label and a branch to a backward label naming
    // the same address produce the identical word.
    let fwd = vec![
        "beq x0, x0, t".to_string(),
        "addi x0, x0, 0".to_string(),
        "t:".to_string(),
        "addi x0, x0, 0".to_string(),
    ];
    let back = vec![
        "addi x0, x0, 0".to_string(),
        "addi x0, x0, 0".to_string(),
        "t:".to_string(),
        "beq x0, x0, t".to_string(),
    ];
    let wf = assemble(&fwd).unwrap();
    let wb = assemble(&back).unwrap();
    assert_eq!(wf[0], wb[2]);
}

#[test]
fn assemble_whole_program() {
    let lines = vec![
        "loop:".to_string(),
        "addi x1, x1, 1".to_string(),
        "jal x0, loop".to_string(),
    ];
    let words = assemble(&lines).unwrap();
    assert_eq!(words.len(), 2);
    assert_eq!(words[0], 0x00108093); // addi x1, x1, 1
    assert_eq!(words[1] & 0x7f, 0x6f);
}

#[test]
fn assemble_rejects_bad_lines() {
    let lines = vec!["addi x1, x1, 1".to_string(), "frob".to_string()];
    assert_eq!(assemble(&lines), Err(IsaError::UnknownOpcode));
    let lines2 = vec!["t: extra".to_string()];
    assert_eq!(assemble(&lines2), Err(IsaError::MalformedLine));
    let lines3 = vec![":".to_string()];
    assert_eq!(assemble(&lines3), Err(IsaError::MalformedLine));
}
