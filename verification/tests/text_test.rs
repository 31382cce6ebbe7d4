use rusty_socket::text::{
    chars_of, copy_range, equal, find_in, lowercase, parse_number, push_decimal, push_hex,
    push_text, split_around, split_lines, split_words, string_of, whitespace,
};

fn chars(text: &str) -> Vec<char> {
    text.chars().collect()
}

fn strings(parts: Vec<Vec<char>>) -> Vec<String> {
    parts.into_iter().map(|part| part.into_iter().collect()).collect()
}

#[test]
fn characters_of_a_string_and_back() {
    assert_eq!(chars_of("aß€😀"), vec!['a', 'ß', '€', '😀']);
    assert_eq!(chars_of(""), Vec::<char>::new());
    assert_eq!(string_of(&['a', 'ß', '€', '😀']), "aß€😀");
    assert_eq!(string_of(&[]), "");
}

#[test]
fn first_occurrence_is_found() {
    let text = chars("a://b://c");

    assert_eq!(find_in(&text, &chars("://"), 0), Some(1));
    assert_eq!(find_in(&text, &chars("://"), 1), Some(1));
    assert_eq!(find_in(&text, &chars("://"), 2), Some(5));
    assert_eq!(find_in(&text, &chars("://"), 6), None);
    assert_eq!(find_in(&text, &chars("c"), 0), Some(8));
    assert_eq!(find_in(&text, &chars("x"), 0), None);
    assert_eq!(find_in(&text, &chars("a://b://c!"), 0), None);
    assert_eq!(find_in(&text, &[], 4), Some(4));
    assert_eq!(find_in(&text, &[], 9), Some(9));
    assert_eq!(find_in(&text, &[], 10), None);
    assert_eq!(find_in(&chars("aab"), &chars("ab"), 0), Some(1));
}

#[test]
fn split_around_the_first_occurrence() {
    let text = chars("key: value: more");
    let (before, after) = split_around(&text, &chars(": ")).expect("the text has the pattern");

    assert_eq!(before, &chars("key")[..]);
    assert_eq!(after, &chars("value: more")[..]);
    assert!(split_around(&text, &chars("=")).is_none());

    let text = chars(": ");
    let (before, after) = split_around(&text, &chars(": ")).unwrap();
    assert!(before.is_empty());
    assert!(after.is_empty());
}

#[test]
fn texts_are_compared() {
    assert!(equal(&chars("abc"), &chars("abc")));
    assert!(!equal(&chars("abc"), &chars("abd")));
    assert!(!equal(&chars("abc"), &chars("ab")));
    assert!(equal(&[], &[]));
}

#[test]
fn only_ascii_letters_are_lowered() {
    assert_eq!(lowercase(&chars("AZaz09@[`{ÄÖ")), chars("azaz09@[`{ÄÖ"));
}

#[test]
fn numbers_are_parsed_as_the_standard_parser_does() {
    for text in ["0", "7", "13", "+13", "007", "255", "256", "65535", "65536", "+", "", "-1",
        "1 ", " 1", "1a", "++1", "99999999999999999999999", "0000000000000000000000001"]
    {
        assert_eq!(
            parse_number(&chars(text), 255),
            text.parse::<u8>().ok().map(u32::from),
            "{:?} as u8",
            text
        );
        assert_eq!(
            parse_number(&chars(text), 65535),
            text.parse::<u16>().ok().map(u32::from),
            "{:?} as u16",
            text
        );
    }
}

#[test]
fn lines_are_split_as_the_standard_library_does() {
    for text in ["", "\n", "\r\n", "a", "a\n", "a\r\n", "a\nb", "a\r\nb\r\n", "foo\nbar\n\r\nbaz\r",
        "\n\n", "a\r", "a\r\r\n", "\ra\n", "x\n\ny\n", "GET / HTTP/1.1\r\nHost: h\r\n\r\n"]
    {
        let expected: Vec<String> = text.lines().map(str::to_string).collect();
        assert_eq!(strings(split_lines(&chars(text))), expected, "{:?}", text);
    }
}

#[test]
fn words_are_split_as_the_standard_library_does() {
    for text in ["", " ", "a", " a ", "GET /chat HTTP/1.1", "  GET \t /rooms/7   HTTP/1.1 ",
        "a\u{a0}b", "a\u{2003}b\u{3000}c", "a\u{200b}b", "\ta\nb\rc\u{b}d\u{c}e", "a\u{85}b",
        "a\u{1680}b\u{2028}c\u{2029}d\u{202f}e\u{205f}f"]
    {
        let expected: Vec<String> = text.split_whitespace().map(str::to_string).collect();
        assert_eq!(strings(split_words(&chars(text))), expected, "{:?}", text);
    }
}

#[test]
fn white_space_is_what_the_standard_library_says() {
    for code in 0..0x4000u32 {
        if let Some(c) = char::from_u32(code) {
            assert_eq!(whitespace(c), c.is_whitespace(), "U+{:04X}", code);
        }
    }
    assert!(!whitespace('\u{feff}'));
    assert!(!whitespace('😀'));
}

#[test]
fn ranges_are_copied() {
    let text = chars("abcdef");

    assert_eq!(copy_range(&text, 1, 4), chars("bcd"));
    assert_eq!(copy_range(&text, 0, 6), text);
    assert!(copy_range(&text, 3, 3).is_empty());
}

#[test]
fn numbers_and_texts_are_appended() {
    let mut out = chars("n=");
    push_decimal(&mut out, 0);
    push_text(&mut out, ", ");
    push_decimal(&mut out, 101);
    push_text(&mut out, ", ");
    push_decimal(&mut out, 4294967295);
    push_text(&mut out, "");

    assert_eq!(out, chars("n=0, 101, 4294967295"));
}

#[test]
fn bytes_are_appended_in_hexadecimal() {
    let mut out = chars("> ");
    push_hex(&mut out, &[0x00, 0x09, 0x0a, 0x9f, 0xa0, 0xff]);
    push_hex(&mut out, &[]);

    assert_eq!(out, chars("> 0x00 0x09 0x0a 0x9f 0xa0 0xff "));
}
