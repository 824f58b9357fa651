use rv32_tools::text::parse_int;
use rv32_tools::text::parse_word;
use rv32_tools::text::to_binary_string;
use rv32_tools::text::tokenize;

#[test]
fn tokenize_splits_on_whitespace() {
    let ts = tokenize("addi x1, x0, 5");
    assert_eq!(
        ts,
        vec!["addi".to_string(), "x1,".to_string(), "x0,".to_string(), "5".to_string()]
    );
    assert_eq!(tokenize("  \t one \n two  "), vec!["one".to_string(), "two".to_string()]);
    assert_eq!(tokenize(""), Vec::<String>::new());
    assert_eq!(tokenize("   "), Vec::<String>::new());
}

#[test]
fn parse_int_reads_signed_decimals() {
    assert_eq!(parse_int("0"), Some(0));
    assert_eq!(parse_int("2047"), Some(2047));
    assert_eq!(parse_int("-2048"), Some(-2048));
    assert_eq!(parse_int("-1"), Some(-1));
    assert_eq!(parse_int("9223372036854775807"), Some(i64::MAX));
    assert_eq!(parse_int("9223372036854775808"), None);
    assert_eq!(parse_int(""), None);
    assert_eq!(parse_int("-"), None);
    assert_eq!(parse_int("12a"), None);
    assert_eq!(parse_int("+5"), None);
}

#[test]
fn binary_form_is_32_characters() {
    assert_eq!(to_binary_string(0), "0".repeat(32));
    assert_eq!(to_binary_string(u32::MAX), "1".repeat(32));
    assert_eq!(
        to_binary_string(0x00108093),
        "00000000000100001000000010010011"
    );
}

#[test]
fn parse_word_reads_binary() {
    assert_eq!(parse_word("101"), Some(5));
    assert_eq!(parse_word(&"1".repeat(32)), Some(u32::MAX));
    assert_eq!(parse_word(""), None);
    assert_eq!(parse_word(&"0".repeat(33)), None);
    assert_eq!(parse_word("012"), None);
}

#[test]
fn binary_round_trip() {
    for w in [0u32, 1, 0x13, 0x00108093, 0xFFF00293, 0xDEADBEEF, u32::MAX] {
        assert_eq!(parse_word(&to_binary_string(w)), Some(w));
    }
}
