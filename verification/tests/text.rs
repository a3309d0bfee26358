use rum::input::Input;
use rum::text::{
    chars_of, ends_with, find, matches_at, parse_i32, parse_u32, parse_usize, same_text,
    split_lines, starts_with, string_of, trim,
};

fn chars(text: &str) -> Vec<char> {
    text.chars().collect()
}

#[test]
fn chars_of_and_string_of_are_inverse() {
    let text = "a→b\n";

    assert_eq!(chars_of(text), vec!['a', '→', 'b', '\n']);
    assert_eq!(string_of(&chars_of(text)), text);
    assert_eq!(string_of(&Vec::new()), "");
}

#[test]
fn find_gives_the_leftmost_position() {
    assert_eq!(find(&chars("abcabc"), &chars("bc")), Some(1));
    assert_eq!(find(&chars("abcabc"), &chars("abcabc")), Some(0));
    assert_eq!(find(&chars("abcabc"), &chars("c")), Some(2));
    assert_eq!(find(&chars("aab"), &chars("ab")), Some(1));
    assert_eq!(find(&chars("abcabc"), &chars("cb")), None);
    assert_eq!(find(&chars("ab"), &chars("abc")), None);
    assert_eq!(find(&chars("ab"), &chars("")), Some(0));
    assert_eq!(find(&chars(""), &chars("")), Some(0));
    assert_eq!(find(&chars("äöü"), &chars("ü")), Some(2));
}

#[test]
fn matches_at_compares_in_place() {
    assert!(matches_at(&chars("abc"), &chars("bc"), 1));
    assert!(!matches_at(&chars("abc"), &chars("ab"), 1));
    assert!(starts_with(&chars("Path=x"), &chars("Path=")));
    assert!(!starts_with(&chars("Pat"), &chars("Path=")));
    assert!(ends_with(&chars("a/userChrome.css"), &chars("userChrome.css")));
    assert!(!ends_with(&chars("css"), &chars("userChrome.css")));
    assert!(same_text("dropdown", "dropdown"));
    assert!(!same_text("dropdown", "Dropdown"));
}

#[test]
fn trim_strips_white_space_at_both_ends_only() {
    assert_eq!(string_of(&trim(&chars("  a b \t\r\n"))), "a b");
    assert_eq!(string_of(&trim(&chars("\u{2003}x\u{85}\u{1680}"))), "x");
    assert_eq!(string_of(&trim(&chars(" \n "))), "");
    assert_eq!(string_of(&trim(&chars(""))), "");
    assert_eq!(string_of(&trim(&chars("\u{200b}x"))), "\u{200b}x");
    for text in ["  a b \t\r\n", "\u{a0}\u{2028}y\u{3000}", "\u{1c}z\u{1f}", "\u{180e}w"] {
        assert_eq!(string_of(&trim(&chars(text))), text.trim());
    }
}

#[test]
fn parse_i32_reads_signed_decimal_numbers() {
    assert_eq!(parse_i32(&chars("0")), Some(0));
    assert_eq!(parse_i32(&chars("-0")), Some(0));
    assert_eq!(parse_i32(&chars("+17")), Some(17));
    assert_eq!(parse_i32(&chars("-17")), Some(-17));
    assert_eq!(parse_i32(&chars("0000000000000000000042")), Some(42));
    assert_eq!(parse_i32(&chars("2147483647")), Some(i32::MAX));
    assert_eq!(parse_i32(&chars("2147483648")), None);
    assert_eq!(parse_i32(&chars("-2147483648")), Some(i32::MIN));
    assert_eq!(parse_i32(&chars("-2147483649")), None);
    assert_eq!(parse_i32(&chars("")), None);
    assert_eq!(parse_i32(&chars("+")), None);
    assert_eq!(parse_i32(&chars("-")), None);
    assert_eq!(parse_i32(&chars("+-1")), None);
    assert_eq!(parse_i32(&chars(" 1")), None);
    assert_eq!(parse_i32(&chars("1a")), None);
    assert_eq!(parse_i32(&chars("١")), None);
    for text in ["12", "-12", "+0", "--1", "99999999999", "1_0", "0x10"] {
        assert_eq!(parse_i32(&chars(text)), text.parse::<i32>().ok());
    }
}

#[test]
fn parse_usize_and_parse_u32_read_unsigned_decimal_numbers() {
    assert_eq!(parse_usize(&chars("18446744073709551615")), "18446744073709551615".parse().ok());
    assert_eq!(parse_usize(&chars("18446744073709551616")), None);
    assert_eq!(parse_usize(&chars("+5")), Some(5));
    assert_eq!(parse_usize(&chars("-5")), None);
    assert_eq!(parse_usize(&chars("-0")), None);
    assert_eq!(parse_u32(&chars("4294967295")), Some(u32::MAX));
    assert_eq!(parse_u32(&chars("4294967296")), None);
    assert_eq!(parse_u32(&chars("")), None);
}

#[test]
fn split_lines_splits_at_line_feeds() {
    let lines = |text: &str| -> Vec<String> {
        split_lines(&chars(text)).iter().map(string_of).collect()
    };

    assert_eq!(lines("a\nb"), vec!["a", "b"]);
    assert_eq!(lines("a\nb\n"), vec!["a", "b"]);
    assert_eq!(lines("a\n\nb"), vec!["a", "", "b"]);
    assert_eq!(lines("\n"), vec![""]);
    assert_eq!(lines("\n\n"), vec!["", ""]);
    assert_eq!(lines("a\r\n"), vec!["a\r"]);
    assert_eq!(lines(""), Vec::<String>::new());
}

#[test]
fn input_reads_its_lines_in_order_and_then_empty_text() {
    let mut input = Input::from_text("one\ntwo\n");

    assert_eq!(input.read_line(), Some(String::from("one")));
    assert_eq!(input.read_line(), Some(String::from("two")));
    assert_eq!(input.read_line(), Some(String::new()));
    assert_eq!(input.read_line(), Some(String::new()));
}

#[test]
fn input_hands_out_unreadable_lines_as_such() {
    let mut input = Input::new(vec![None, Some(String::from(" x ")), None]);

    assert_eq!(input.read_line(), None);
    assert_eq!(input.read_trimmed(), "x");
    assert_eq!(input.read_trimmed(), "");
}
