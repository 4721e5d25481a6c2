use miniredis::text::{
    chars_of, decimal_int_text, decimal_text, parse_i64, parse_u64, parse_up_to, parse_usize,
    same_text, split_at_hyphen, trimmed,
};

#[test]
fn characters_of_a_text() {
    assert_eq!(chars_of("a\u{e9}z"), vec!['a', '\u{e9}', 'z']);
    assert!(chars_of("").is_empty());
}

#[test]
fn white_space_is_trimmed() {
    assert_eq!(trimmed("  px \r\n"), "px");
    assert_eq!(trimmed("\t\u{b}\u{c}a b\t"), "a b");
    assert_eq!(trimmed("\u{a0}\u{2003}x\u{3000}"), "x");
    assert_eq!(trimmed(" \r\n "), "");
    assert_eq!(trimmed("x"), "x");
    assert_eq!(trimmed("\u{200b}x"), "\u{200b}x");
}

#[test]
fn texts_are_compared() {
    assert!(same_text("getack", "getack"));
    assert!(!same_text("getack", "getacK"));
    assert!(!same_text("get", "getack"));
    assert!(same_text("", ""));
    assert!(!same_text("\u{e9}", "e\u{301}"));
}

#[test]
fn the_first_hyphen_splits() {
    assert_eq!(split_at_hyphen("1526-3"), Some(("1526", "3")));
    assert_eq!(split_at_hyphen("-"), Some(("", "")));
    assert_eq!(split_at_hyphen("a-b-c"), Some(("a", "b-c")));
    assert_eq!(split_at_hyphen("15263"), None);
}

#[test]
fn unsigned_numbers_are_read() {
    assert_eq!(parse_u64("0"), Some(0));
    assert_eq!(parse_u64("+7"), Some(7));
    assert_eq!(parse_u64("007"), Some(7));
    assert_eq!(parse_u64("18446744073709551615"), Some(u64::MAX));
    assert_eq!(parse_u64("18446744073709551616"), None);
    assert_eq!(parse_u64("99999999999999999999999"), None);
    assert_eq!(parse_u64(""), None);
    assert_eq!(parse_u64("+"), None);
    assert_eq!(parse_u64("-1"), None);
    assert_eq!(parse_u64(" 1"), None);
    assert_eq!(parse_u64("1x"), None);
    assert_eq!(parse_u64("\u{661}"), None);
    assert_eq!(parse_usize("12"), Some(12));
    assert_eq!(parse_usize("x"), None);
    assert_eq!(parse_up_to("5", 5), Some(5));
    assert_eq!(parse_up_to("6", 5), None);
    assert_eq!(parse_up_to("10", 5), None);
}

#[test]
fn signed_numbers_are_read() {
    assert_eq!(parse_i64("-9223372036854775808"), Some(i64::MIN));
    assert_eq!(parse_i64("-9223372036854775809"), None);
    assert_eq!(parse_i64("9223372036854775807"), Some(i64::MAX));
    assert_eq!(parse_i64("9223372036854775808"), None);
    assert_eq!(parse_i64("+12"), Some(12));
    assert_eq!(parse_i64("-0"), Some(0));
    assert_eq!(parse_i64("-"), None);
    assert_eq!(parse_i64("--1"), None);
    assert_eq!(parse_i64("1.5"), None);
}

#[test]
fn numbers_are_read_as_std_reads_them() {
    for s in ["", "0", "+", "-", "+0", "-0", "12", "-12", "+12", "0012", "1 ", "a", "-+1", "9223372036854775807", "9223372036854775808"] {
        assert_eq!(parse_i64(s), s.parse::<i64>().ok());
        assert_eq!(parse_u64(s), s.parse::<u64>().ok());
        assert_eq!(parse_usize(s), s.parse::<usize>().ok());
    }
}

#[test]
fn numbers_are_written_and_read_back() {
    for n in [0u64, 9, 10, 42, 999, 1000, 1526919030474, u64::MAX] {
        assert_eq!(decimal_text(n), n.to_string());
        assert_eq!(parse_u64(&decimal_text(n)), Some(n));
    }
    for i in [0i64, 7, -7, -10, i64::MAX, i64::MIN] {
        assert_eq!(decimal_int_text(i), i.to_string());
        assert_eq!(parse_i64(&decimal_int_text(i)), Some(i));
    }
}
