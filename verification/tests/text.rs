//! Text helpers.

use ziver::text::{
    begins_with, contains_text, join_text, lower_text, parse_unsigned, push_int, push_nat,
    same_text, text_before, trimmed_text,
};

fn int_text(k: i128) -> String {
    let mut out = String::new();
    push_int(&mut out, k);
    out
}

fn nat_text(n: u128) -> String {
    let mut out = String::new();
    push_nat(&mut out, n);
    out
}

#[test]
fn numbers_are_written_in_decimal() {
    assert_eq!(nat_text(0), "0");
    assert_eq!(nat_text(1204), "1204");
    assert_eq!(int_text(-17), "-17");
    assert_eq!(int_text(i128::MIN), i128::MIN.to_string());
    assert_eq!(int_text(i128::MAX), i128::MAX.to_string());
}

#[test]
fn decimals_are_read_back() {
    for n in [0u64, 1, 9, 10, 4096, 9_999_999] {
        assert_eq!(parse_unsigned(&nat_text(n as u128), u64::MAX), Some(n));
    }
    assert_eq!(parse_unsigned("+7", 10), Some(7));
    assert_eq!(parse_unsigned("007", 10), Some(7));
    assert_eq!(parse_unsigned("", 10), None);
    assert_eq!(parse_unsigned("+", 10), None);
    assert_eq!(parse_unsigned("-1", 10), None);
    assert_eq!(parse_unsigned("1_0", 100), None);
    assert_eq!(parse_unsigned("11", 10), None);
    assert_eq!(parse_unsigned("18446744073709551615", u64::MAX), Some(u64::MAX));
    assert_eq!(parse_unsigned("18446744073709551616", u64::MAX), None);
}

#[test]
fn texts_are_compared_and_searched() {
    assert!(same_text("abc", "abc"));
    assert!(!same_text("abc", "abd"));
    assert!(!same_text("abc", "ab"));
    assert!(contains_text("my_executor_1", "executor"));
    assert!(contains_text("abc", ""));
    assert!(!contains_text("abc", "abcd"));
    assert!(begins_with("clk_prev", "clk"));
    assert!(!begins_with("cl", "clk"));
    assert!(text_before("ab", "b"));
    assert!(text_before("a", "ab"));
    assert!(!text_before("b", "ab"));
    assert!(!text_before("a", "a"));
}

#[test]
fn texts_are_lowered_joined_and_trimmed() {
    assert_eq!(lower_text("ByteChip"), "bytechip");
    assert_eq!(lower_text("ÄB"), "Äb");
    assert_eq!(join_text(&vec!["a".to_string(), "b".to_string()], "::"), "a::b");
    assert_eq!(join_text(&vec![], "::"), "");
    assert_eq!(trimmed_text("  sat \n"), "sat");
    assert_eq!(trimmed_text("   "), "");
    assert_eq!(trimmed_text("a b"), "a b");
}
