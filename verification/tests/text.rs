use engi_math::text::{decimal_string, is_whitespace_char, split_tokens};

#[test]
fn split_tokens_cuts_at_commas() {
    assert_eq!(split_tokens("2,0,0,3"), vec!["2", "0", "0", "3"]);
}

#[test]
fn split_tokens_trims_each_piece() {
    assert_eq!(split_tokens(" 1.5 ,\t2 ,3\n"), vec!["1.5", "2", "3"]);
}

#[test]
fn split_tokens_keeps_white_space_inside_an_element() {
    assert_eq!(split_tokens(" 1 2 , 3"), vec!["1 2", "3"]);
}

#[test]
fn split_tokens_of_empty_text_is_one_empty_token() {
    assert_eq!(split_tokens(""), vec![""]);
}

#[test]
fn split_tokens_of_white_space_is_one_empty_token() {
    assert_eq!(split_tokens("  \t "), vec![""]);
}

#[test]
fn split_tokens_keeps_empty_elements() {
    assert_eq!(split_tokens(",1,,2,"), vec!["", "1", "", "2", ""]);
    assert_eq!(split_tokens(","), vec!["", ""]);
    assert_eq!(split_tokens(" , "), vec!["", ""]);
}

#[test]
fn split_tokens_without_comma_is_one_token() {
    assert_eq!(split_tokens("5"), vec!["5"]);
    assert_eq!(split_tokens("  5;6  "), vec!["5;6"]);
}

#[test]
fn split_tokens_trims_white_space_beyond_ascii() {
    assert_eq!(
        split_tokens("\u{00A0}1\u{2003},\u{3000}2\u{0085},\u{2028}3\u{205F}"),
        vec!["1", "2", "3"]
    );
}

#[test]
fn split_tokens_keeps_other_characters_beyond_ascii() {
    assert_eq!(split_tokens("\u{200B}1, é ,\u{FEFF}"), vec!["\u{200B}1", "é", "\u{FEFF}"]);
}

#[test]
fn split_tokens_agrees_with_std_split_and_trim() {
    let samples = [
        "",
        ",",
        "1,2,3",
        " 1 ,2 , 3 ",
        "a,,b",
        ",,,",
        "\t\n1e5 ,\r\n -2.5e-3\u{00A0}, +inf",
        "no comma at all",
        " \u{1680}x\u{1680} , \u{180E} ",
    ];
    for sample in samples {
        let expected: Vec<String> =
            sample.split(',').map(|piece| piece.trim().to_string()).collect();
        assert_eq!(split_tokens(sample), expected);
    }
}

#[test]
fn split_tokens_handles_a_long_line() {
    let mut line = String::new();
    let mut i = 0;
    while i < 10000 {
        if i > 0 {
            line.push_str(" , ");
        }
        line.push_str(&i.to_string());
        i += 1;
    }
    let tokens = split_tokens(&line);
    assert_eq!(tokens.len(), 10000);
    assert_eq!(tokens[0], "0");
    assert_eq!(tokens[9999], "9999");
}

#[test]
fn decimal_string_writes_base_ten() {
    assert_eq!(decimal_string(0), "0");
    assert_eq!(decimal_string(7), "7");
    assert_eq!(decimal_string(10), "10");
    assert_eq!(decimal_string(1205), "1205");
    assert_eq!(decimal_string(9876543210), "9876543210");
}

#[test]
fn decimal_string_writes_the_largest_count() {
    assert_eq!(decimal_string(usize::MAX), usize::MAX.to_string());
}

#[test]
fn is_whitespace_char_knows_the_common_ones() {
    assert!(is_whitespace_char(' '));
    assert!(is_whitespace_char('\t'));
    assert!(is_whitespace_char('\n'));
    assert!(is_whitespace_char('\r'));
    assert!(is_whitespace_char('\u{000B}'));
    assert!(is_whitespace_char('\u{000C}'));
    assert!(is_whitespace_char('\u{00A0}'));
    assert!(!is_whitespace_char('0'));
    assert!(!is_whitespace_char(','));
    assert!(!is_whitespace_char('\u{200B}'));
    assert!(!is_whitespace_char('\u{001C}'));
}

#[test]
fn is_whitespace_char_agrees_with_std_on_every_char() {
    let mut code: u32 = 0;
    while code <= 0x10FFFF {
        if let Some(c) = char::from_u32(code) {
            assert_eq!(is_whitespace_char(c), c.is_whitespace(), "U+{:04X}", code);
        }
        code += 1;
    }
}
