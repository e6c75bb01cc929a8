use op_wofi::text::{
    char_is_digit, char_is_whitespace, chars_of, decimal_string, find_last, pad_left, pad_right,
    parse_number, same_text, trim,
};

fn chars(s: &str) -> Vec<char> {
    s.chars().collect()
}

fn parse(s: &str) -> Option<usize> {
    parse_number(s)
}

#[test]
fn whitespace_agrees_with_std_on_every_char() {
    let mut code: u32 = 0;
    while code <= 0x10FFFF {
        if let Some(c) = char::from_u32(code) {
            assert_eq!(char_is_whitespace(c), c.is_whitespace(), "U+{:04X}", code);
        }
        code += 1;
    }
}

#[test]
fn digit_agrees_with_std_on_every_char() {
    let mut code: u32 = 0;
    while code <= 0x10FFFF {
        if let Some(c) = char::from_u32(code) {
            assert_eq!(char_is_digit(c), c.is_ascii_digit(), "U+{:04X}", code);
        }
        code += 1;
    }
}

#[test]
fn chars_of_keeps_every_char_in_order() {
    assert_eq!(chars_of(""), Vec::<char>::new());
    assert_eq!(chars_of("a|b"), vec!['a', '|', 'b']);
    assert_eq!(chars_of("é🔐x"), vec!['é', '🔐', 'x']);
}

#[test]
fn same_text_compares_contents() {
    assert!(same_text("", ""));
    assert!(same_text("OP_SESSION", "OP_SESSION"));
    assert!(!same_text("OP_SESSION", "OP_SESSIO"));
    assert!(!same_text("password", "PASSWORD"));
}

#[test]
fn trim_removes_white_space_at_both_ends_only() {
    assert_eq!(trim("  a b \n"), "a b");
    assert_eq!(trim("\t\r\n x"), "x");
    assert_eq!(trim("x"), "x");
    assert_eq!(trim(""), "");
    assert_eq!(trim(" \n\t "), "");
    assert_eq!(trim("\u{a0}\u{2003}é \u{3000}"), "é");
}

#[test]
fn trim_agrees_with_std() {
    let samples = [
        "",
        " ",
        "a",
        " a",
        "a ",
        "  0 | password | ********  \n",
        "\u{85}x\u{85}",
        "\u{1680}\u{2000}mid dle\u{200a}\u{2028}\u{2029}\u{202f}\u{205f}",
        "\u{200b}zero width space is no white space\u{200b}",
        "\u{0b}\u{0c}v\u{1c}",
    ];
    for s in samples {
        assert_eq!(trim(s), s.trim(), "{:?}", s);
    }
}

#[test]
fn pad_right_fills_with_spaces_up_to_the_width() {
    assert_eq!(pad_right("ab", 5), "ab   ");
    assert_eq!(pad_right("ab", 2), "ab");
    assert_eq!(pad_right("abc", 2), "abc");
    assert_eq!(pad_right("", 3), "   ");
    assert_eq!(pad_right("", 0), "");
}

#[test]
fn pad_right_counts_characters_not_bytes() {
    assert_eq!(pad_right("é", 3), "é  ");
    assert_eq!(pad_right("🔐x", 4), "🔐x  ");
    assert_eq!(pad_right("é", 3), format!("{:3}", "é"));
}

#[test]
fn pad_left_fills_with_spaces_before() {
    assert_eq!(pad_left("7", 3), "  7");
    assert_eq!(pad_left("123", 3), "123");
    assert_eq!(pad_left("1234", 3), "1234");
    assert_eq!(pad_left("7", 3), format!("{:3}", 7));
}

#[test]
fn decimal_string_writes_numbers_as_std_does() {
    assert_eq!(decimal_string(0), "0");
    assert_eq!(decimal_string(7), "7");
    assert_eq!(decimal_string(10), "10");
    assert_eq!(decimal_string(909), "909");
    assert_eq!(decimal_string(usize::MAX), usize::MAX.to_string());
    let mut n: usize = 0;
    while n < 2000 {
        assert_eq!(decimal_string(n), n.to_string());
        n += 1;
    }
}

#[test]
fn parse_number_reads_plain_numbers() {
    assert_eq!(parse("0"), Some(0));
    assert_eq!(parse("42"), Some(42));
    assert_eq!(parse("007"), Some(7));
    assert_eq!(parse("+5"), Some(5));
    assert_eq!(parse(&usize::MAX.to_string()), Some(usize::MAX));
}

#[test]
fn parse_number_refuses_what_is_no_number() {
    assert_eq!(parse(""), None);
    assert_eq!(parse("+"), None);
    assert_eq!(parse("-1"), None);
    assert_eq!(parse("++1"), None);
    assert_eq!(parse("1+"), None);
    assert_eq!(parse(" 1"), None);
    assert_eq!(parse("1 "), None);
    assert_eq!(parse("12a"), None);
    assert_eq!(parse("١٢"), None);
    assert_eq!(parse("abc"), None);
}

#[test]
fn parse_number_refuses_numbers_beyond_the_machine_word() {
    let mut too_large = usize::MAX.to_string();
    too_large.push('0');
    assert_eq!(parse(&too_large), None);
    let digits = usize::MAX.to_string();
    let last = digits.chars().last().unwrap();
    if last != '9' {
        let mut next = digits[..digits.len() - 1].to_string();
        next.push(char::from_u32(last as u32 + 1).unwrap());
        assert_eq!(parse(&next), None);
    }
    assert_eq!(parse("99999999999999999999999999999999999999999"), None);
}

#[test]
fn parse_number_agrees_with_std() {
    let samples = [
        "", "+", "-", "0", "+0", "-0", "00", "1", "+1", "18446744073709551615",
        "18446744073709551616", "4294967295", "4294967296", "1_000", "0x10", "١", " 7", "7\n",
    ];
    for s in samples {
        assert_eq!(parse(s), s.parse::<usize>().ok(), "{:?}", s);
    }
}

#[test]
fn find_last_gives_the_last_place() {
    let pattern = chars("::index:");
    assert_eq!(find_last(&chars("a ::index:1 ::index:22"), &pattern), Some(12));
    assert_eq!(find_last(&chars("::index:"), &pattern), Some(0));
    assert_eq!(find_last(&chars(":index:"), &pattern), None);
    assert_eq!(find_last(&chars(""), &pattern), None);
    assert_eq!(find_last(&chars("abc"), &chars("")), Some(3));
    assert_eq!(find_last(&chars(":::index:"), &pattern), Some(1));
}
