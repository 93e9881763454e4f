use commitlint::bytes::{find_byte, starts_with};
use commitlint::header::{char_is_type_char, parse_header, scan_type};
use commitlint::text::{
    char_is_whitespace, char_to_ascii_lowercase, chars_eq, chars_eq_str, chars_of, find_char,
    lowercased, split_lines, starts_with_str, text_of, trimmed, trimmed_end, trimmed_start,
};

fn chars(text: &str) -> Vec<char> {
    text.chars().collect()
}

fn text(chars: &[char]) -> String {
    chars.iter().collect()
}

fn lines(input: &str) -> Vec<String> {
    let input = chars(input);
    split_lines(&input).into_iter().map(text).collect()
}

#[test]
fn text_of_takes_well_formed_utf8_alone() {
    assert_eq!(text_of(b""), Some(""));
    assert_eq!(text_of(b"fix: x"), Some("fix: x"));
    assert_eq!(
        text_of(b"a\xc3\xa9\xe3\x80\x80\xf0\x9f\x98\x80"),
        Some("a\u{e9}\u{3000}\u{1f600}")
    );
    assert_eq!(text_of(b"\xff"), None);
    assert_eq!(text_of(b"a\xc3"), None);
    assert_eq!(text_of(b"\xc0\x80"), None);
    assert_eq!(text_of(b"\xed\xa0\x80"), None);
    assert_eq!(text_of(b"\xf4\x90\x80\x80"), None);
    assert_eq!(text_of(b"\x80"), None);
}

#[test]
fn type_characters_are_letters_digits_and_the_hyphen() {
    for code in 0..=0x10ffffu32 {
        if let Some(c) = char::from_u32(code) {
            assert_eq!(
                char_is_type_char(c),
                c.is_ascii_alphanumeric() || c == '-',
                "{code:#x}"
            );
        }
    }
    assert_eq!(scan_type(&chars("")), 0);
    assert_eq!(scan_type(&chars("feat")), 4);
    assert_eq!(scan_type(&chars("Fix-9(x)")), 5);
    assert_eq!(scan_type(&chars(": x")), 0);
    assert_eq!(scan_type(&chars("f\u{e9}at: x")), 1);
}

#[test]
fn chars_of_decodes_each_character() {
    assert_eq!(chars_of(""), vec![]);
    assert_eq!(
        chars_of("a\u{e9}\u{3000}\u{1f600}z"),
        vec!['a', '\u{e9}', '\u{3000}', '\u{1f600}', 'z']
    );
}

#[test]
fn white_space_is_what_std_calls_white_space() {
    let mut count = 0;
    for code in 0..=0x10ffffu32 {
        if let Some(c) = char::from_u32(code) {
            assert_eq!(char_is_whitespace(c), c.is_whitespace(), "{code:#x}");
            if char_is_whitespace(c) {
                count += 1;
            }
        }
    }
    assert_eq!(count, 25);
}

#[test]
fn lower_case_is_what_std_calls_ascii_lower_case() {
    for code in 0..=0x10ffffu32 {
        if let Some(c) = char::from_u32(code) {
            assert_eq!(char_to_ascii_lowercase(c), c.to_ascii_lowercase(), "{code:#x}");
        }
    }
    assert_eq!(text(&lowercased(&chars("Fix-1 \u{c9}Z@[`{"))), "fix-1 \u{c9}z@[`{");
}

#[test]
fn trimming_removes_white_space_at_the_ends_alone() {
    let input = chars(" \t\u{3000}a b\u{a0} c \r\n");
    assert_eq!(text(trimmed_start(&input)), "a b\u{a0} c \r\n");
    assert_eq!(text(trimmed_end(&input)), " \t\u{3000}a b\u{a0} c");
    assert_eq!(text(trimmed(&input)), "a b\u{a0} c");
    assert_eq!(text(trimmed(&chars(" \u{2028} "))), "");
    assert_eq!(text(trimmed(&chars(""))), "");
    assert_eq!(text(trimmed(&chars("abc"))), "abc");
}

#[test]
fn lines_end_at_line_feeds() {
    assert_eq!(lines(""), Vec::<String>::new());
    assert_eq!(lines("a"), vec!["a"]);
    assert_eq!(lines("a\n"), vec!["a"]);
    assert_eq!(lines("\n"), vec![""]);
    assert_eq!(lines("\n\n"), vec!["", ""]);
    assert_eq!(lines("a\n\nb"), vec!["a", "", "b"]);
    assert_eq!(lines("a\r\nb\r\n"), vec!["a", "b"]);
    assert_eq!(lines("a\r\r\nb\rc\r"), vec!["a\r", "b\rc\r"]);
    for input in ["", "a", "a\n", "\n", "\r\n", "a\r\n\r\nb\r", "\r", "x\n\ny\n\n", "a\u{85}b"] {
        let expected: Vec<String> = input.lines().map(str::to_string).collect();
        assert_eq!(lines(input), expected, "{input:?}");
    }
}

#[test]
fn comparing_characters() {
    assert!(chars_eq(&chars("abc"), &chars("abc")));
    assert!(!chars_eq(&chars("abc"), &chars("abd")));
    assert!(!chars_eq(&chars("abc"), &chars("ab")));
    assert!(chars_eq(&[], &[]));
    assert!(chars_eq_str(&chars("f\u{e9}"), "f\u{e9}"));
    assert!(!chars_eq_str(&chars("fe"), "f\u{e9}"));
    assert!(!chars_eq_str(&chars("fix"), "fi"));
    assert!(!chars_eq_str(&chars("fi"), "fix"));
    assert!(chars_eq_str(&[], ""));
    assert!(starts_with_str(&chars("we did"), "we "));
    assert!(starts_with_str(&chars("we "), "we "));
    assert!(starts_with_str(&chars("we"), ""));
    assert!(!starts_with_str(&chars("we"), "we "));
    assert!(!starts_with_str(&chars("wet"), "we "));
}

#[test]
fn finding_the_first() {
    assert_eq!(find_char(&chars("a(b)c)"), ')'), Some(3));
    assert_eq!(find_char(&chars(")"), ')'), Some(0));
    assert_eq!(find_char(&chars("abc"), ')'), None);
    assert_eq!(find_char(&[], ')'), None);
    assert_eq!(find_byte(b"tree X\nparent Y\n", b'\n'), Some(6));
    assert_eq!(find_byte(b"tree X", b'\n'), None);
    assert_eq!(find_byte(b"", b' '), None);
    assert!(starts_with(b"Merge branch 'x'", b"Merge branch "));
    assert!(starts_with(b"Merge", b""));
    assert!(!starts_with(b"Merge branch", b"Merge branch "));
    assert!(!starts_with(b"Merge Branch 'x'", b"Merge branch "));
}

#[test]
fn header_is_split_into_its_parts() {
    let line = chars("feat(a (b)!: c: d");
    let parsed = parse_header(&line).unwrap();
    assert_eq!(text(parsed.ty), "feat");
    assert_eq!(parsed.scope.map(text), Some("a (b".to_string()));
    assert!(parsed.breaking);
    assert_eq!(text(parsed.rest), " c: d");

    let line = chars("Fix-9:");
    let parsed = parse_header(&line).unwrap();
    assert_eq!(text(parsed.ty), "Fix-9");
    assert_eq!(parsed.scope.map(text), None);
    assert!(!parsed.breaking);
    assert_eq!(text(parsed.rest), "");

    let line = chars("a()!:!");
    let parsed = parse_header(&line).unwrap();
    assert_eq!(text(parsed.ty), "a");
    assert_eq!(parsed.scope.map(text), Some(String::new()));
    assert!(parsed.breaking);
    assert_eq!(text(parsed.rest), "!");

    for line in ["", ":", "a", "a(", "a(b", "a(b)", "a)", "a b:", "a(b))!:"] {
        assert!(parse_header(&chars(line)).is_none(), "{line}");
    }
}
