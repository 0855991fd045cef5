use x11_guard::text::all_digit_chars;
use x11_guard::text::chars_of;
use x11_guard::text::decimal_string;
use x11_guard::text::is_digit_char;
use x11_guard::text::is_space_char;
use x11_guard::text::lines;
use x11_guard::text::parse_decimal;
use x11_guard::text::str_eq;
use x11_guard::text::trim;
use x11_guard::text::words;

#[test]
fn parse_decimal_reads_plain_numbers() {
    assert_eq!(parse_decimal("0", u64::MAX), Some(0));
    assert_eq!(parse_decimal("42", u64::MAX), Some(42));
    assert_eq!(parse_decimal("120", u64::MAX), Some(120));
    assert_eq!(parse_decimal("007", u64::MAX), Some(7));
    assert_eq!(parse_decimal("0000000000000000000000000000000001", u64::MAX), Some(1));
}

#[test]
fn parse_decimal_takes_one_plus_sign() {
    assert_eq!(parse_decimal("+7", u64::MAX), Some(7));
    assert_eq!(parse_decimal("+", u64::MAX), None);
    assert_eq!(parse_decimal("++7", u64::MAX), None);
    assert_eq!(parse_decimal("7+", u64::MAX), None);
}

#[test]
fn parse_decimal_refuses_what_is_no_number() {
    assert_eq!(parse_decimal("", u64::MAX), None);
    assert_eq!(parse_decimal("-1", u64::MAX), None);
    assert_eq!(parse_decimal("-0", u64::MAX), None);
    assert_eq!(parse_decimal("4 2", u64::MAX), None);
    assert_eq!(parse_decimal(" 42", u64::MAX), None);
    assert_eq!(parse_decimal("42 ", u64::MAX), None);
    assert_eq!(parse_decimal("4_2", u64::MAX), None);
    assert_eq!(parse_decimal("abc", u64::MAX), None);
    assert_eq!(parse_decimal("0x10", u64::MAX), None);
    assert_eq!(parse_decimal("\u{ff11}\u{ff12}", u64::MAX), None);
}

#[test]
fn parse_decimal_keeps_to_its_bound() {
    assert_eq!(parse_decimal("18446744073709551615", u64::MAX), Some(u64::MAX));
    assert_eq!(parse_decimal("18446744073709551616", u64::MAX), None);
    assert_eq!(parse_decimal("99999999999999999999999", u64::MAX), None);
    assert_eq!(parse_decimal("100", 100), Some(100));
    assert_eq!(parse_decimal("101", 100), None);
    assert_eq!(parse_decimal("2147483647", 2147483647), Some(2147483647));
    assert_eq!(parse_decimal("2147483648", 2147483647), None);
    assert_eq!(parse_decimal("5", 0), None);
    assert_eq!(parse_decimal("0", 0), Some(0));
}

#[test]
fn parse_decimal_agrees_with_the_standard_parser() {
    let samples = [
        "", "+", "-", "0", "+0", "-0", "1", "+1", "-1", "00", "010", "9", "10", "99", "100",
        "18446744073709551614", "18446744073709551615", "18446744073709551616",
        "184467440737095516150", "+18446744073709551615", " 1", "1 ", "1\n", "a", "1a", "a1",
        "1.0", "1e3", "\u{661}", "+-1", "++1", "٣",
    ];
    for s in samples {
        assert_eq!(parse_decimal(s, u64::MAX), s.parse::<u64>().ok(), "{:?}", s);
    }
}

#[test]
fn decimal_string_writes_exact_digits() {
    assert_eq!(decimal_string(0), "0");
    assert_eq!(decimal_string(7), "7");
    assert_eq!(decimal_string(9), "9");
    assert_eq!(decimal_string(10), "10");
    assert_eq!(decimal_string(101), "101");
    assert_eq!(decimal_string(1234567890), "1234567890");
    assert_eq!(decimal_string(u64::MAX), "18446744073709551615");
}

#[test]
fn decimal_string_is_read_back() {
    let samples = [0u64, 1, 9, 10, 11, 99, 100, 255, 65535, 4294967295, 4294967296, u64::MAX];
    for n in samples {
        assert_eq!(parse_decimal(decimal_string(n).as_str(), u64::MAX), Some(n));
        assert_eq!(decimal_string(n), format!("{}", n));
    }
}

#[test]
fn digit_and_space_classes_agree_with_the_standard_ones() {
    let mut code: u32 = 0;
    while code <= 0x10ffff {
        if let Some(c) = char::from_u32(code) {
            assert_eq!(is_digit_char(c), c.is_ascii_digit(), "digit {:?}", c);
            assert_eq!(is_space_char(c), c.is_whitespace(), "space {:?}", c);
        }
        code += 1;
    }
}

#[test]
fn all_digit_chars_is_true_of_the_empty_text() {
    assert!(all_digit_chars(&chars_of("")));
    assert!(all_digit_chars(&chars_of("0123456789")));
    assert!(!all_digit_chars(&chars_of("12a")));
    assert!(!all_digit_chars(&chars_of("+1")));
    assert!(!all_digit_chars(&chars_of(" ")));
}

#[test]
fn chars_of_gives_the_characters_in_order() {
    assert_eq!(chars_of("a:7é"), vec!['a', ':', '7', 'é']);
    assert_eq!(chars_of(""), Vec::<char>::new());
}

#[test]
fn str_eq_compares_whole_texts() {
    assert!(str_eq("", ""));
    assert!(str_eq("--dry-run", "--dry-run"));
    assert!(!str_eq("--dry-run", "--dry-ru"));
    assert!(!str_eq("qq", "QQ"));
    assert!(!str_eq("a", ""));
}

#[test]
fn trim_removes_white_space_at_both_ends_only() {
    assert_eq!(trim("qq\n"), "qq");
    assert_eq!(trim("  qq\t\r\n"), "qq");
    assert_eq!(trim("qq"), "qq");
    assert_eq!(trim(""), "");
    assert_eq!(trim(" \t\n"), "");
    assert_eq!(trim(" a b "), "a b");
    assert_eq!(trim("\u{3000}x\u{a0}"), "x");
    assert_eq!(trim("é \u{2028}"), "é");
}

#[test]
fn trim_agrees_with_the_standard_one() {
    let samples = ["", " ", "a", " a", "a ", " a ", "\n\na b\n\n", "\u{85}z\u{1680}", "Web Content\n"];
    for s in samples {
        assert_eq!(trim(s), s.trim(), "{:?}", s);
    }
}

#[test]
fn words_are_the_runs_between_white_space() {
    assert_eq!(words("a  b\tc\n"), vec!["a", "b", "c"]);
    assert_eq!(words(""), Vec::<&str>::new());
    assert_eq!(words("   "), Vec::<&str>::new());
    assert_eq!(words(" x"), vec!["x"]);
    assert_eq!(words("x "), vec!["x"]);
    assert_eq!(words("one"), vec!["one"]);
    assert_eq!(words("u_str ESTAB 0 0 @/tmp/.X11-unix/X0 1 * 2"), vec![
        "u_str", "ESTAB", "0", "0", "@/tmp/.X11-unix/X0", "1", "*", "2",
    ]);
}

#[test]
fn words_agree_with_the_standard_split() {
    let samples = ["", " ", "a", " a b ", "a\u{a0}b", "\ta\r\nb\u{2003}c ", "é  ü"];
    for s in samples {
        let expected: Vec<&str> = s.split_whitespace().collect();
        assert_eq!(words(s), expected, "{:?}", s);
    }
}

#[test]
fn lines_are_the_pieces_between_line_feeds() {
    assert_eq!(lines("a\nb"), vec!["a", "b"]);
    assert_eq!(lines("a\n"), vec!["a", ""]);
    assert_eq!(lines(""), vec![""]);
    assert_eq!(lines("\n\n"), vec!["", "", ""]);
    assert_eq!(lines("one line"), vec!["one line"]);
    assert_eq!(lines("a\r\nb"), vec!["a\r", "b"]);
}
