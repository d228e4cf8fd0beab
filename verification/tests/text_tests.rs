use ragit::text::{collapse_whitespace, decimal_string, join_strings, parse_u64, split_once, to_hex_lower};

#[test]
fn whitespace_collapses_to_single_spaces() {
    assert_eq!(collapse_whitespace("  a \t b\n\nc  "), "a b c");
    assert_eq!(collapse_whitespace(" \n "), "");
}

#[test]
fn unsigned_numbers_parse_as_std_does() {
    assert_eq!(parse_u64(&"42".chars().collect()), Some(42));
    assert_eq!(parse_u64(&"+7".chars().collect()), Some(7));
    assert_eq!(parse_u64(&"18446744073709551615".chars().collect()), Some(u64::MAX));
    assert_eq!(parse_u64(&"18446744073709551616".chars().collect()), None);
    assert_eq!(parse_u64(&"".chars().collect()), None);
    assert_eq!(parse_u64(&"+".chars().collect()), None);
    assert_eq!(parse_u64(&"-1".chars().collect()), None);
    assert_eq!(parse_u64(&"1 2".chars().collect()), None);
}

#[test]
fn splitting_and_joining() {
    assert_eq!(split_once("a.b.c", '.'), Some(("a".to_string(), "b.c".to_string())));
    assert_eq!(split_once("abc", '.'), None);
    assert_eq!(join_strings(&vec!["x".to_string(), "y".to_string()], ", "), "x, y");
    assert_eq!(join_strings(&vec![], ", "), "");
}

#[test]
fn numbers_and_bytes_as_text() {
    assert_eq!(decimal_string(0), "0");
    assert_eq!(decimal_string(1234567890), "1234567890");
    assert_eq!(to_hex_lower(&[0x00, 0xab, 0x7f]), "00ab7f");
}
