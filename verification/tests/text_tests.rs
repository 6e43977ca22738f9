use backup_rs::order::{sort_strings, str_lt};
use backup_rs::adb::device_tag;
use backup_rs::backup::confirm_overwrite;
use backup_rs::text::{
    contains_str, decimal_string, first_word_of, join_strings, lines_of, parse_unsigned_str,
    split_char, starts_with_str, trim_matches_char, trim_str,
};

fn strings(v: &[&str]) -> Vec<String> {
    v.iter().map(|s| s.to_string()).collect()
}

#[test]
fn lines_split_at_line_feeds_and_crlf() {
    assert_eq!(lines_of("a\r\nb\n"), strings(&["a", "b"]));
    assert_eq!(lines_of("a\nb"), strings(&["a", "b"]));
    assert_eq!(lines_of(""), Vec::<String>::new());
    assert_eq!(lines_of("\n\n"), strings(&["", ""]));
}

#[test]
fn lines_keep_a_lone_carriage_return() {
    assert_eq!(lines_of("a\r"), strings(&["a\r"]));
    assert_eq!(lines_of("x\ry\n"), strings(&["x\ry"]));
}

#[test]
fn lines_agree_with_std() {
    for s in ["", "a", "a\n", "\r\n", "a\r\nb\r", "\n\na\n\n", "é\nü\r\n"] {
        let expected: Vec<String> = s.lines().map(|l| l.to_string()).collect();
        assert_eq!(lines_of(s), expected, "input {:?}", s);
    }
}

#[test]
fn trim_removes_unicode_whitespace() {
    assert_eq!(trim_str(" \t x y \n"), "x y");
    assert_eq!(trim_str("\u{3000}x\u{2003}"), "x");
    assert_eq!(trim_str("   "), "");
    for s in ["", " a ", "\u{85}b\u{a0}", "\u{200b}c"] {
        assert_eq!(trim_str(s), s.trim());
    }
}

#[test]
fn trim_matches_strips_quotes() {
    assert_eq!(trim_matches_char("\"arch\"", '"'), "arch");
    assert_eq!(trim_matches_char("\"\"\"", '"'), "");
    assert_eq!(trim_matches_char("a\"b", '"'), "a\"b");
}

#[test]
fn split_keeps_empty_pieces() {
    assert_eq!(split_char("a,,b", ','), strings(&["a", "", "b"]));
    assert_eq!(split_char("", ','), strings(&[""]));
    assert_eq!(split_char(",", ','), strings(&["", ""]));
}

#[test]
fn join_puts_separator_between() {
    assert_eq!(join_strings(&strings(&["a", "b", "c"]), ", "), "a, b, c");
    assert_eq!(join_strings(&strings(&[]), ", "), "");
    assert_eq!(join_strings(&strings(&["x"]), "-"), "x");
}

#[test]
fn substring_search() {
    assert!(contains_str("cachyos-desktop", "cachyos"));
    assert!(!contains_str("abc", "abd"));
    assert!(contains_str("abc", ""));
    assert!(starts_with_str("nvme0n1", "nvme"));
    assert!(!starts_with_str("sda", "nvme"));
}

#[test]
fn first_word_skips_leading_whitespace() {
    assert_eq!(first_word_of("  emulator-5554\tdevice"), Some("emulator-5554".to_string()));
    assert_eq!(first_word_of(" \t "), None);
}

#[test]
fn decimal_numbers() {
    assert_eq!(decimal_string(0), "0");
    assert_eq!(decimal_string(1234567), "1234567");
    assert_eq!(decimal_string(u64::MAX), "18446744073709551615");
}

#[test]
fn parsing_numbers_like_std() {
    assert_eq!(parse_unsigned_str("+42", u64::MAX), Some(42));
    assert_eq!(parse_unsigned_str("007", u64::MAX), Some(7));
    assert_eq!(parse_unsigned_str("18446744073709551615", u64::MAX), Some(u64::MAX));
    assert_eq!(parse_unsigned_str("18446744073709551616", u64::MAX), None);
    assert_eq!(parse_unsigned_str("-1", u64::MAX), None);
    assert_eq!(parse_unsigned_str("+", u64::MAX), None);
    assert_eq!(parse_unsigned_str("", u64::MAX), None);
    assert_eq!(parse_unsigned_str(" 1", u64::MAX), None);
    assert_eq!(parse_unsigned_str("256", 255), None);
    for s in ["0", "+9", "12a", "99999999999999999999", "١٢"] {
        assert_eq!(parse_unsigned_str(s, u64::MAX), s.parse::<u64>().ok(), "input {:?}", s);
    }
}

#[test]
fn lowercase_uses_unicode_tables() {
    assert_eq!(device_tag("ÀB-Cd", "serial"), "àb-cd");
    assert_eq!(device_tag("ARCH", "serial"), "arch");
    assert!(confirm_overwrite(" Y\n"));
    assert!(!confirm_overwrite("yes"));
}

#[test]
fn alphanumeric_uses_unicode_tables() {
    assert_eq!(device_tag("Pixel 7 (é)!", "serial"), "pixel-7-é");
    assert_eq!(device_tag("()", "serial"), "serial");
}

#[test]
fn strings_sort_like_std() {
    let v = strings(&["pixel", "Galaxy", "a", "pix", "é", "a"]);
    let mut expected = v.clone();
    expected.sort();
    assert_eq!(sort_strings(v), expected);
    assert!(str_lt("ab", "b"));
    assert!(str_lt("a", "ab"));
    assert!(!str_lt("b", "b"));
}
