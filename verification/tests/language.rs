use rv32_tools::frontend::generate_code;
use rv32_tools::frontend::lexer;
use rv32_tools::frontend::parser;
use rv32_tools::frontend::Node;
use rv32_tools::frontend::PrimType;
use rv32_tools::frontend::Token;

#[test]
fn lexer_tokenizes_a_small_program() {
    let src = "int main() { print_int(42); }".to_string();
    let tokens = lexer(&src).unwrap();
    assert_eq!(
        tokens,
        vec![
            Token::INT,
            Token::Id("main".to_string()),
            Token::LeftParen,
            Token::RightParen,
            Token::LeftBracket,
            Token::Id("print_int".to_string()),
            Token::LeftParen,
            Token::Integer(42),
            Token::RightParen,
            Token::Semicolon,
            Token::RightBracket,
        ]
    );
}

#[test]
fn lexer_operators_and_idents() {
    let src = "a1 + b_2 - 3 * 4 / 5".to_string();
    let tokens = lexer(&src).unwrap();
    assert_eq!(
        tokens,
        vec![
            Token::Id("a1".to_string()),
            Token::Operator('+'),
            Token::Id("b_2".to_string()),
            Token::Operator('-'),
            Token::Integer(3),
            Token::Operator('*'),
            Token::Integer(4),
            Token::Operator('/'),
            Token::Integer(5),
        ]
    );
}

#[test]
fn lexer_rejects_unknown_characters_and_huge_integers() {
    assert!(lexer(&"int @".to_string()).is_err());
    assert!(lexer(&"99999999999999999999999".to_string()).is_err());
    assert_eq!(
        lexer(&"9223372036854775807".to_string()).unwrap(),
        vec![Token::Integer(i64::MAX)]
    );
}

#[test]
fn parser_builds_a_program_of_function_definitions() {
    let src = "int main() { print_int(42); }".to_string();
    let tokens = lexer(&src).unwrap();
    let tree = parser(tokens).unwrap();
    assert_eq!(
        tree,
        Node::Program {
            body: vec![Node::FuncDef {
                name: "main".to_string(),
                return_type: PrimType::Int,
                body: vec![Node::FuncCall {
                    name: "print_int".to_string(),
                    args: vec![Node::IntConst { n: 42 }],
                }],
            }],
        }
    );
}

#[test]
fn parser_rejects_malformed_programs() {
    assert!(parser(vec![Token::Id("f".to_string())]).is_err());
    assert!(parser(vec![Token::INT, Token::Id("f".to_string()), Token::LeftParen]).is_err());
    assert!(
        parser(
            vec![
                Token::INT,
                Token::Id("f".to_string()),
                Token::LeftParen,
                Token::RightParen,
                Token::LeftBracket,
            ]
        )
        .is_err()
    );
    assert!(parser(vec![Token::Integer(1)]).is_err());
}

#[test]
fn parser_accepts_empty_input_and_two_functions() {
    assert_eq!(parser(vec![]).unwrap(), Node::Program { body: vec![] });
    let src = "int f() { } int main() { f(); }".to_string();
    let tree = parser(lexer(&src).unwrap()).unwrap();
    match tree {
        Node::Program { body } => assert_eq!(body.len(), 2),
        _ => panic!("root must be a program"),
    }
}

#[test]
fn generate_code_emits_assembly_lines() {
    let src = "int main() { print_int(42); }".to_string();
    let tree = parser(lexer(&src).unwrap()).unwrap();
    let lines = generate_code(tree).unwrap();
    assert_eq!(
        lines,
        vec![
            "main:".to_string(),
            "addi $a0, $zero, 42".to_string(),
            "print_int $a0".to_string(),
            "exit".to_string(),
        ]
    );
}

#[test]
fn generate_code_for_helper_calls() {
    // The lexer has no negative literals: '-' lexes as an operator, which
    // the parser refuses inside a body.
    let bad = "int f() { print_int(-7); }".to_string();
    assert!(parser(lexer(&bad).unwrap()).is_err());
    let src = "int f() { print_int(7); } int main() { f(); }".to_string();
    let tree = parser(lexer(&src).unwrap()).unwrap();
    let lines = generate_code(tree).unwrap();
    assert_eq!(
        lines,
        vec![
            "f:".to_string(),
            "addi $a0, $zero, 7".to_string(),
            "print_int $a0".to_string(),
            "jal $ra".to_string(),
            "main:".to_string(),
            "jalr f".to_string(),
            "exit".to_string(),
        ]
    );
}

#[test]
fn generate_code_rejects_non_program_root() {
    assert!(generate_code(Node::IntConst { n: 1 }).is_err());
}
