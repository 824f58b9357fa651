use rv32_tools::encoder::assemble;
use rv32_tools::encoder::parse_i_type;
use rv32_tools::encoder::parse_line;
use rv32_tools::encoder::parse_r_type;
use rv32_tools::encoder::parse_s_type;
use rv32_tools::errors::IsaError;
use rv32_tools::machine::State;
use rv32_tools::symtab::SymbolTable;

fn machine_with(words: Vec<u32>) -> State {
    State::init(words)
}

/// Run one instruction, given freshly written source registers.
fn exec_one(line: &str, setup: &[(usize, u32)]) -> State {
    let t = SymbolTable::new();
    let w = parse_line(line, &t).unwrap();
    let mut s = machine_with(vec![w]);
    for (i, v) in setup.iter() {
        s.write_register(*i, *v);
    }
    s.step().unwrap();
    s
}

#[test]
fn write_to_register_zero_is_discarded() {
    let mut s = machine_with(vec![]);
    s.write_register(0, 0xDEADBEEF);
    assert_eq!(s.read_register(0), 0);
    s.write_register(5, 7);
    assert_eq!(s.read_register(5), 7);
    s.write_register(0, u32::MAX);
    assert_eq!(s.read_register(0), 0);
}

#[test]
fn addi_sign_extends_minus_one() {
    // Encoding addi x5, x0, -1 and decoding yields all 32 bits set.
    let s = exec_one("addi x5, x0, -1", &[]);
    assert_eq!(s.read_register(5), 0xFFFFFFFF);
}

#[test]
fn r_type_alu_semantics() {
    let a = 0x80000005u32;
    let b = 3u32;
    let cases = [
        ("add", a.wrapping_add(b)),
        ("sub", a.wrapping_sub(b)),
        ("sll", a << 3),
        ("slt", 1),  // a is negative as a signed value
        ("sltu", 0), // but large unsigned
        ("xor", a ^ b),
        ("srl", a >> 3),
        ("sra", ((a as i32) >> 3) as u32),
        ("or", a | b),
        ("and", a & b),
    ];
    for (mn, expect) in cases.iter() {
        let line = format!("{} x1, x2, x3", mn);
        let s = exec_one(&line, &[(2, a), (3, b)]);
        assert_eq!(s.read_register(1), *expect, "{}", mn);
    }
}

#[test]
fn op_imm_semantics() {
    let a = 0xFFFFFFF0u32; // -16 signed
    let cases = [
        ("addi x1, x2, 100", a.wrapping_add(100)),
        ("slti x1, x2, 0", 1),
        ("sltiu x1, x2, 0", 0),
        ("xori x1, x2, -1", !a),
        ("ori x1, x2, 15", a | 15),
        ("andi x1, x2, 255", a & 255),
        ("slli x1, x2, 4", a << 4),
        ("srli x1, x2, 4", a >> 4),
        ("srai x1, x2, 4", ((a as i32) >> 4) as u32),
    ];
    for (line, expect) in cases.iter() {
        let s = exec_one(line, &[(2, a)]);
        assert_eq!(s.read_register(1), *expect, "{}", line);
    }
}

#[test]
fn store_then_load_round_trip() {
    let t = SymbolTable::new();
    let sw = parse_line("sw x2, x1, 8", &t).unwrap();
    let lw = parse_line("lw x3, x1, 8", &t).unwrap();
    let mut s = machine_with(vec![sw, lw]);
    s.write_register(1, 100);
    s.write_register(2, 0xCAFEBABE);
    s.step().unwrap();
    s.step().unwrap();
    assert_eq!(s.read_register(3), 0xCAFEBABE);
    assert_eq!(s.read_memory(108, 4), Ok(0xCAFEBABE));
}

#[test]
fn sw_reconstructs_effective_address_with_split_immediate() {
    // sw x2, x1, 2047 writes exactly at base(x1) + 2047: the split S-type
    // immediate merges back to 2047.
    let s = exec_one("sw x2, x1, 2047", &[(1, 100), (2, 0x11223344)]);
    assert_eq!(s.read_memory(2147, 4), Ok(0x11223344));
    assert_eq!(s.read_memory(2146, 1), Ok(0));
}

#[test]
fn loads_extend_by_width() {
    let mut s = machine_with(vec![]);
    s.write_memory(40, 4, 0x001280FF).unwrap();
    assert_eq!(s.read_memory(40, 1), Ok(0xFF));
    assert_eq!(s.read_memory(40, 2), Ok(0x80FF));
    let t = SymbolTable::new();
    for (line, expect) in [
        ("lb x1, x0, 40", 0xFFFFFFFFu32),
        ("lbu x1, x0, 40", 0xFF),
        ("lh x1, x0, 40", 0xFFFF80FF),
        ("lhu x1, x0, 40", 0x80FF),
        ("lw x1, x0, 40", 0x001280FF),
    ]
    .iter()
    {
        let w = parse_line(line, &t).unwrap();
        let mut m = machine_with(vec![w]);
        m.write_memory(40, 4, 0x001280FF).unwrap();
        m.step().unwrap();
        assert_eq!(m.read_register(1), *expect, "{}", line);
    }
}

#[test]
fn load_outside_data_memory_is_reported() {
    let s_err = {
        let t = SymbolTable::new();
        let w = parse_line("lw x1, x2, 0", &t).unwrap();
        let mut m = machine_with(vec![w]);
        m.write_register(2, 100_000);
        m.step()
    };
    assert_eq!(s_err, Err(IsaError::MemoryOutOfRange));
}

#[test]
fn branches_compare_and_jump_to_absolute_target() {
    let mut t = SymbolTable::new();
    t.define("t".to_string(), 96);
    let cases = [
        ("beq", 5u32, 5u32, true),
        ("beq", 5, 6, false),
        ("bne", 5, 6, true),
        ("blt", 0xFFFFFFFF, 1, true), // -1 < 1 signed
        ("bge", 1, 0xFFFFFFFF, true),
        ("bltu", 0xFFFFFFFF, 1, false),
        ("bgeu", 0xFFFFFFFF, 1, true),
    ];
    for (mn, a, b, taken) in cases.iter() {
        let line = format!("{} x1, x2, t", mn);
        let w = parse_line(&line, &t).unwrap();
        let mut s = machine_with(vec![w, 0x13, 0x13]);
        s.write_register(1, *a);
        s.write_register(2, *b);
        s.step().unwrap();
        if *taken {
            assert!(s.is_exit(), "{} should have left the program", line);
        } else {
            assert!(!s.is_exit(), "{} should fall through", line);
        }
    }
}

#[test]
fn jal_and_jalr_link_and_jump() {
    let mut t = SymbolTable::new();
    t.define("f".to_string(), 4);
    let jal = parse_line("jal x1, f", &t).unwrap();
    let nop = parse_i_type("addi x0, x0, 0").unwrap();
    let mut s = machine_with(vec![jal, nop]);
    s.step().unwrap();
    assert_eq!(s.read_register(1), 4); // PC + 4
    s.step().unwrap(); // runs the word at the target
    assert!(s.is_exit());

    let jalr = parse_line("jalr x1, x2, f", &t).unwrap();
    let mut s2 = machine_with(vec![jalr, nop, nop]);
    s2.write_register(2, 4); // target = x2 + 4 = 8
    s2.step().unwrap();
    assert_eq!(s2.read_register(1), 4);
    s2.step().unwrap();
    assert!(s2.is_exit());
}

#[test]
fn lui_places_upper_bits() {
    let s = exec_one("lui x3, 4096", &[]);
    assert_eq!(s.read_register(3), 4096 << 12);
}

#[test]
fn halt_in_one_step_leaves_pc_unchanged() {
    // A program of just the halt custom instruction halts in one step.
    let mut s = machine_with(vec![0x0000000B, 0x13]);
    assert!(!s.is_exit());
    s.step().unwrap();
    assert!(s.is_exit());
    // The program counter did not move: a second fetch decodes halt again.
    s.step().unwrap();
    assert!(s.is_exit());
}

#[test]
fn custom_print_emits_register_value() {
    // funct3 1, rd 7: emit the value of register 7.
    let w = 0x0B | (1 << 12) | (7 << 7);
    let mut s = machine_with(vec![w, w]);
    s.write_register(7, 42);
    s.step().unwrap();
    s.write_register(7, 43);
    s.step().unwrap();
    assert_eq!(s.output_values().clone(), vec![42, 43]);
    assert!(s.is_exit());
}

#[test]
fn custom_unknown_funct3_is_reported() {
    let w = 0x0B | (2 << 12);
    let mut s = machine_with(vec![w]);
    assert_eq!(s.step(), Err(IsaError::UnsupportedCustomOp));
}

#[test]
fn unknown_opcode_is_reported() {
    let mut s = machine_with(vec![0x7F]);
    assert_eq!(s.step(), Err(IsaError::UnsupportedOpcode));
}

#[test]
fn fetch_past_end_reports_halted_not_fatal() {
    // A machine whose PC equals 4 * len(instruction_memory) reports halted.
    let mut s = machine_with(vec![0x13]);
    s.advance_pc();
    assert!(s.is_exit());
    assert!(s.is_halted());
    assert_eq!(s.step(), Err(IsaError::FetchOutOfRange));
    // The empty program is halted from the start.
    let e = machine_with(vec![]);
    assert!(e.is_exit());
}

#[test]
fn assembled_loop_counts_iterations() {
    // loop: addi x1, x1, 1 / jal x0, loop — bounded simulation leaves the
    // iteration count in x1.
    let lines = vec![
        "loop:".to_string(),
        "addi x1, x1, 1".to_string(),
        "jal x0, loop".to_string(),
    ];
    let words = assemble(&lines).unwrap();
    let mut s = machine_with(words);
    s.run(20).unwrap();
    assert_eq!(s.read_register(1), 10);
    assert!(!s.is_exit());
}

#[test]
fn run_stops_at_halt() {
    let lines = vec!["addi x1, x0, 9".to_string()];
    let mut words = assemble(&lines).unwrap();
    words.push(0x0000000B);
    let mut s = machine_with(words);
    s.run(100).unwrap();
    assert!(s.is_exit());
    assert_eq!(s.read_register(1), 9);
}

#[test]
fn encode_then_execute_agrees_for_every_r_mnemonic() {
    // Round trip at the word level: the encoder's output runs as the
    // mnemonic's documented effect for each R-type operation.
    let a = 17u32;
    let b = 5u32;
    for mn in ["add", "sub", "sll", "slt", "sltu", "xor", "srl", "sra", "or", "and"].iter() {
        let line = format!("{} x4, x5, x6", mn);
        let w = parse_r_type(&line).unwrap();
        let mut s = machine_with(vec![w]);
        s.write_register(5, a);
        s.write_register(6, b);
        s.step().unwrap();
        let expect = match *mn {
            "add" => a.wrapping_add(b),
            "sub" => a.wrapping_sub(b),
            "sll" => a << (b & 31),
            "slt" => ((a as i32) < (b as i32)) as u32,
            "sltu" => (a < b) as u32,
            "xor" => a ^ b,
            "srl" => a >> (b & 31),
            "sra" => ((a as i32) >> (b & 31)) as u32,
            "or" => a | b,
            "and" => a & b,
            _ => unreachable!(),
        };
        assert_eq!(s.read_register(4), expect, "{}", mn);
    }
}

#[test]
fn store_widths_truncate() {
    for (mn, expect) in [("sb", 0xEFu32), ("sh", 0xBEEF), ("sw", 0xDEADBEEF)].iter() {
        let line = format!("{} x2, x1, 0", mn);
        let w = parse_s_type(&line).unwrap();
        let mut s = machine_with(vec![w]);
        s.write_register(1, 200);
        s.write_register(2, 0xDEADBEEF);
        s.step().unwrap();
        assert_eq!(s.read_memory(200, 4), Ok(*expect), "{}", mn);
    }
}
