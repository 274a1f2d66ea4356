use ireal::text::{
    find, from_chars, is_space_char, matches_at, parse_number, split, to_chars, trim,
    write_decimal,
};

fn chars(text: &str) -> Vec<char> {
    text.chars().collect()
}

fn string(chars: &Vec<char>) -> String {
    chars.iter().collect()
}

#[test]
fn strings_and_characters_convert_both_ways() {
    for text in ["", "a", "Monk Thelonious", "caf\u{e9} \u{1d10c}"] {
        assert_eq!(to_chars(text), chars(text));
        assert_eq!(from_chars(&chars(text)), text.to_string());
    }
}

#[test]
fn white_space_is_what_the_standard_library_calls_so() {
    for n in 0u32..=0x10ffff {
        if let Some(c) = char::from_u32(n) {
            assert_eq!(is_space_char(c), c.is_whitespace(), "U+{:04X}", n);
        }
    }
}

#[test]
fn trimming_agrees_with_the_standard_library() {
    for text in [
        "",
        " ",
        " \t\r\n",
        "a",
        " a",
        "a ",
        "  a b  ",
        "\u{a0}irealb://x\u{3000}\n",
        "\u{2003}\u{2028}inner \u{85} space\u{1680}",
        "no space",
    ] {
        assert_eq!(string(&trim(&chars(text))), text.trim().to_string(), "{:?}", text);
    }
}

#[test]
fn numbers_agree_with_the_standard_library() {
    for text in [
        "", "0", "7", "120", "007", "+5", "+", "-5", "++5", "5+", " 5", "5 ", "1_000", "0x10",
        "4294967295", "4294967296", "99999999999999999999", "00000000000000000000001", "12a",
        "\u{661}\u{662}", "+0",
    ] {
        assert_eq!(parse_number(&chars(text)), text.parse::<u32>().ok(), "{:?}", text);
    }
}

#[test]
fn splitting_agrees_with_the_standard_library() {
    let cases = [
        ("", "="),
        ("a", "="),
        ("a=b", "="),
        ("=a==b=", "="),
        ("a===b", "==="),
        ("a====b", "==="),
        ("a======b", "==="),
        ("===", "==="),
        ("==", "==="),
        ("Work=Monk==Swing===Title", "==="),
        ("Work=Monk==Swing===Title", "="),
        ("aaa", "aa"),
    ];
    for (text, separator) in cases {
        let expected: Vec<String> = text.split(separator).map(|part| part.to_string()).collect();
        let parts = split(&chars(text), &chars(separator));
        let found: Vec<String> = parts.iter().map(string).collect();
        assert_eq!(found, expected, "{:?} by {:?}", text, separator);
    }
}

#[test]
fn empty_separator_cuts_nowhere() {
    let parts = split(&chars("abc"), &chars(""));
    assert_eq!(parts, vec![chars("abc")]);
    assert_eq!(split(&chars(""), &chars("")), vec![chars("")]);
    assert_eq!(find(&chars("abc"), 2, &chars("")), Some(2));
    assert_eq!(find(&chars("abc"), 3, &chars("")), Some(3));
    assert_eq!(find(&chars("abc"), 4, &chars("")), None);
}

#[test]
fn finding_agrees_with_the_standard_library() {
    let text = "abcabcabd";
    for (from, pattern) in [(0, "abc"), (1, "abc"), (4, "abc"), (0, "abd"), (0, "x"), (7, "bd"), (9, "a")] {
        let expected = text[from..].find(pattern).map(|k| k + from);
        assert_eq!(find(&chars(text), from, &chars(pattern)), expected);
    }
    assert!(matches_at(&chars(text), 3, &chars("abc")));
    assert!(!matches_at(&chars(text), 6, &chars("abc")));
    assert!(!matches_at(&chars(text), 8, &chars("dd")));
    assert!(matches_at(&chars(text), 9, &chars("")));
    assert!(!matches_at(&chars(text), 10, &chars("")));
}

#[test]
fn decimal_digits_are_written() {
    for n in [0u32, 1, 9, 10, 11, 99, 100, 101, 4294967295] {
        let mut out = chars("n=");
        write_decimal(&mut out, n);
        assert_eq!(string(&out), format!("n={}", n));
    }
}
