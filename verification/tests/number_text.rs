use expense_tracker::number::{parse_i32, parse_usize, push_int, push_nat};
use expense_tracker::text::{same_text, starts_with_yes, truncate_text};
use expense_tracker::{read_int_from, read_line_from};

#[test]
fn parse_i32_reads_signed_decimals() {
    assert_eq!(parse_i32(b"42"), Some(42));
    assert_eq!(parse_i32(b"-7"), Some(-7));
    assert_eq!(parse_i32(b"+5"), Some(5));
    assert_eq!(parse_i32(b"007"), Some(7));
    assert_eq!(parse_i32(b"2147483647"), Some(i32::MAX));
    assert_eq!(parse_i32(b"-2147483648"), Some(i32::MIN));
}

#[test]
fn parse_i32_refuses_what_std_refuses() {
    for s in ["", "-", "+", "2147483648", "-2147483649", "12a", " 1", "1 ", "--1", "99999999999999999999"] {
        assert_eq!(parse_i32(s.as_bytes()), None, "{:?}", s);
        assert!(s.parse::<i32>().is_err());
    }
}

#[test]
fn parse_usize_agrees_with_std() {
    for s in ["0", "+3", "1000", "-3", "", "+", "18446744073709551615", "18446744073709551616", "3x"] {
        assert_eq!(parse_usize(s.as_bytes()), s.parse::<usize>().ok(), "{:?}", s);
    }
}

#[test]
fn push_int_writes_like_display() {
    for v in [0i64, 5, -5, 10, 2024, -128, i64::MAX, i64::MIN] {
        let mut out = String::from("x");
        push_int(&mut out, v);
        assert_eq!(out, format!("x{}", v));
    }
    let mut out = String::new();
    push_nat(&mut out, 1000);
    assert_eq!(out, "1000");
}

#[test]
fn int_text_reads_back() {
    for v in [0i32, 1, -1, 2024, i32::MAX, i32::MIN] {
        let mut out = String::new();
        push_int(&mut out, v as i64);
        assert_eq!(parse_i32(out.as_bytes()), Some(v));
    }
}

#[test]
fn read_line_from_drops_the_line_ending() {
    assert_eq!(read_line_from("abc\r\n"), "abc");
    assert_eq!(read_line_from("abc\n"), "abc");
    assert_eq!(read_line_from("abc"), "abc");
    assert_eq!(read_line_from("abc\r"), "abc\r");
    assert_eq!(read_line_from("a\r\r\n"), "a\r");
    assert_eq!(read_line_from("\n"), "");
    assert_eq!(read_line_from(""), "");
}

#[test]
fn read_int_from_trims_unicode_whitespace() {
    assert_eq!(read_int_from("  42 \n"), Some(42));
    assert_eq!(read_int_from("\u{3000}7\u{a0}\r\n"), Some(7));
    assert_eq!(read_int_from("-1\n"), Some(-1));
    assert_eq!(read_int_from("x\n"), None);
    assert_eq!(read_int_from("\n"), None);
    assert_eq!(read_int_from("4 2\n"), None);
}

#[test]
fn truncate_text_cuts_at_a_character_boundary() {
    assert_eq!(truncate_text("日本語", 4), "日");
    assert_eq!(truncate_text("日本語", 6), "日本");
    assert_eq!(truncate_text("日本語", 9), "日本語");
    assert_eq!(truncate_text("abc", 2), "ab");
    assert_eq!(truncate_text("abc", 5), "abc");
    assert_eq!(truncate_text("日", 2), "");
    let long = "a".repeat(99) + "日";
    assert_eq!(truncate_text(&long, 100), "a".repeat(99));
}

#[test]
fn same_text_compares_texts() {
    assert!(same_text("-1", "-1"));
    assert!(!same_text("-1", "-1 "));
    assert!(!same_text("日", "月"));
    assert!(same_text("", ""));
}

#[test]
fn starts_with_yes_accepts_y_and_upper_y() {
    assert!(starts_with_yes("y"));
    assert!(starts_with_yes("Yes"));
    assert!(!starts_with_yes(" y"));
    assert!(!starts_with_yes("n"));
    assert!(!starts_with_yes(""));
}
