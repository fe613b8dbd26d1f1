use kobold_bench::amount::format_amount;
use kobold_bench::text::{
    audit_field, chars_of, decimal_text, hex, parse_u64, parse_usize, push_decimal, same_text,
};

#[test]
fn decimal_is_padded_to_width() {
    assert_eq!(decimal_text(0, 0), "0");
    assert_eq!(decimal_text(7, 2), "07");
    assert_eq!(decimal_text(100, 2), "100");
    assert_eq!(decimal_text(42, 8), "00000042");
    assert_eq!(decimal_text(u64::MAX, 0), "18446744073709551615");
    let mut out = String::from("n=");
    push_decimal(&mut out, u128::MAX, 0);
    assert_eq!(out, format!("n={}", u128::MAX));
}

#[test]
fn amounts_have_two_places() {
    assert_eq!(format_amount(0, 0), "0.00");
    assert_eq!(format_amount(1234567, 5), "1234567.05");
    assert_eq!(format_amount(12, 99), "12.99");
}

#[test]
fn hex_is_lower_case() {
    assert_eq!(hex(&[]), "");
    assert_eq!(hex(&[0x00, 0x0F, 0xA0, 0xFF]), "000fa0ff");
}

#[test]
fn audit_field_takes_first_occurrence() {
    let audit = "{\"a\":\"x\",\"b\":\"first\",\"b\":\"second\",\"n\":5}";
    assert_eq!(audit_field(audit, "a"), Some("x"));
    assert_eq!(audit_field(audit, "b"), Some("first"));
    assert_eq!(audit_field(audit, "n"), None);
    assert_eq!(audit_field(audit, "missing"), None);
    assert_eq!(audit_field("\"k\":\"open", "k"), None);
    assert_eq!(audit_field("\"k\":\"\"", "k"), Some(""));
    assert_eq!(audit_field("é\"k\":\"ü\"", "k"), Some("ü"));
    assert_eq!(audit_field("", "k"), None);
}

#[test]
fn numbers_parse_as_unsigned() {
    assert_eq!(parse_u64("0"), Some(0));
    assert_eq!(parse_u64("+17"), Some(17));
    assert_eq!(parse_u64("00018446744073709551615"), Some(u64::MAX));
    assert_eq!(parse_u64("18446744073709551616"), None);
    assert_eq!(parse_u64("99999999999999999999999"), None);
    assert_eq!(parse_u64(""), None);
    assert_eq!(parse_u64("+"), None);
    assert_eq!(parse_u64("-1"), None);
    assert_eq!(parse_u64("++1"), None);
    assert_eq!(parse_u64("1 "), None);
    assert_eq!(parse_u64("1_000"), None);
    assert_eq!(parse_u64("٣"), None);
    assert_eq!(parse_usize("5000000"), Some(5_000_000));
    assert_eq!(parse_usize("x"), None);
}

#[test]
fn texts_compare_by_character() {
    assert!(same_text("", ""));
    assert!(same_text("1g", "1g"));
    assert!(!same_text("1g", "1G"));
    assert!(!same_text("1", "1g"));
    assert_eq!(chars_of("aé"), vec!['a', 'é']);
}
