use haproxy_lsp::text::{
    byte_len, char_is_name_char, char_is_whitespace, contains, contains_char, find, is_name,
    same_chars, split_first_token, split_lines, starts_with, to_chars, to_string, trim, trim_end,
    trim_start,
};

fn chars(s: &str) -> Vec<char> {
    to_chars(s)
}

fn text(s: &[char]) -> String {
    to_string(s)
}

const SAMPLES: [&str; 16] = [
    "",
    " ",
    "a",
    "  a  ",
    "\t backend  web \r",
    "\u{a0}x\u{2003}y\u{3000}",
    "\u{b}\u{c}\u{85}mid\u{1680}\u{2028}\u{2029}",
    "use_backend api if is_api",
    "   ",
    "a\u{200b}b",
    "x\ny",
    "caf\u{e9} \u{1f600} end",
    "\u{feff}bom",
    "a\u{202f}b\u{205f}c",
    "\u{180e}mongolian",
    "tab\tseparated\tvalues",
];

#[test]
fn conversion_round_trips() {
    for s in SAMPLES {
        assert_eq!(chars(s), s.chars().collect::<Vec<char>>());
        assert_eq!(text(&chars(s)), s);
    }
}

#[test]
fn trimming_agrees_with_the_standard_library() {
    for s in SAMPLES {
        let c = chars(s);
        assert_eq!(text(trim(&c)), s.trim(), "{:?}", s);
        assert_eq!(text(trim_start(&c)), s.trim_start(), "{:?}", s);
        assert_eq!(text(trim_end(&c)), s.trim_end(), "{:?}", s);
    }
}

#[test]
fn tokens_agree_with_the_standard_library() {
    for s in SAMPLES {
        let c = chars(s);
        let mut rest: &[char] = &c;
        let mut found = Vec::new();
        loop {
            let (token, after) = split_first_token(rest);
            if token.is_empty() {
                break;
            }
            found.push(text(token));
            rest = after;
        }
        let expected: Vec<String> = s.split_whitespace().map(String::from).collect();
        assert_eq!(found, expected, "{:?}", s);
    }
}

#[test]
fn first_token_and_rest() {
    let c = chars("  acl   is_api path_beg /api ");
    let (token, rest) = split_first_token(&c);
    assert_eq!(text(token), "acl");
    assert_eq!(text(rest), "   is_api path_beg /api ");
    let blank = chars("   ");
    let (token, rest) = split_first_token(&blank);
    assert!(token.is_empty());
    assert!(rest.is_empty());
}

#[test]
fn lines_agree_with_the_standard_library() {
    for s in [
        "",
        "\n",
        "\n\n",
        "a",
        "a\n",
        "a\nb",
        "a\n\nb\n",
        "a\r\n",
        "a\r",
        "a\r\nb\r",
        "a\r\r\n",
        "\r\n\r\n",
        "\r",
        "foo\nbar\n\r\nbaz\r",
        "  indented\n\ttabbed\r\nlast",
        "x\r\ny\rz\n",
    ] {
        let c = chars(s);
        let found: Vec<String> = split_lines(&c).into_iter().map(text).collect();
        let expected: Vec<String> = s.lines().map(String::from).collect();
        assert_eq!(found, expected, "{:?}", s);
    }
}

#[test]
fn prefix_test_agrees_with_the_standard_library() {
    for (s, p) in [
        ("backend web", "backend "),
        ("backend", "backend "),
        ("backendweb", "backend "),
        ("", ""),
        ("a", ""),
        ("", "a"),
        ("acl x", "acl "),
        ("xacl x", "acl "),
    ] {
        assert_eq!(starts_with(&chars(s), &chars(p)), s.starts_with(p), "{:?} {:?}", s, p);
    }
    assert!(same_chars(&chars("||"), &chars("||")));
    assert!(!same_chars(&chars("||"), &chars("|")));
    assert!(!same_chars(&chars("ab"), &chars("ac")));
    assert!(same_chars(&chars(""), &chars("")));
}

#[test]
fn search_finds_the_leftmost_occurrence() {
    for (s, p) in [
        ("use_backend a if b if c", " if "),
        ("if b", " if "),
        (" if ", " if "),
        ("aaa", "aa"),
        ("abc", "c"),
        ("abc", "abcd"),
        ("abc", ""),
        ("", ""),
        ("", "a"),
        ("default_backend x", "default_backend"),
        ("caf\u{e9} if x", " if "),
    ] {
        let expected = s.find(p).map(|byte| s[..byte].chars().count());
        assert_eq!(find(&chars(s), &chars(p)), expected, "{:?} {:?}", s, p);
        assert_eq!(contains(&chars(s), &chars(p)), s.contains(p), "{:?} {:?}", s, p);
    }
    assert_eq!(find(&chars("use_backend a if b if c"), &chars(" if ")), Some(13));
    assert!(contains_char(&chars("{src"), '{'));
    assert!(!contains_char(&chars("src"), '{'));
    assert!(!contains_char(&chars(""), '{'));
}

#[test]
fn byte_length_is_the_utf8_length() {
    for s in SAMPLES {
        assert_eq!(byte_len(&chars(s)), s.len() as u128, "{:?}", s);
    }
    assert_eq!(byte_len(&chars("\u{7f}")), 1);
    assert_eq!(byte_len(&chars("\u{80}")), 2);
    assert_eq!(byte_len(&chars("\u{7ff}")), 2);
    assert_eq!(byte_len(&chars("\u{800}")), 3);
    assert_eq!(byte_len(&chars("\u{ffff}")), 3);
    assert_eq!(byte_len(&chars("\u{10000}")), 4);
    assert_eq!(byte_len(&chars("\u{10ffff}")), 4);
}

#[test]
fn names_are_letters_digits_underscores_and_hyphens() {
    for (s, expected) in [
        ("is_api", true),
        ("web-01", true),
        ("caf\u{e9}", true),
        ("\u{664}\u{662}", true),
        ("", true),
        ("a.b", false),
        ("10.0.0.0/8", false),
        ("!x", false),
        ("a b", false),
        ("{", false),
        ("||", false),
    ] {
        assert_eq!(is_name(&chars(s)), expected, "{:?}", s);
        assert_eq!(
            is_name(&chars(s)),
            s.chars().all(|c| c.is_alphanumeric() || c == '_' || c == '-')
        );
    }
}

#[test]
fn whitespace_is_what_the_standard_library_takes_for_it() {
    let mut count = 0;
    for code in 0..=0x10ffffu32 {
        if let Some(c) = char::from_u32(code) {
            assert_eq!(char_is_whitespace(c), c.is_whitespace(), "U+{:04X}", code);
            if char_is_whitespace(c) {
                count += 1;
            }
        }
    }
    assert_eq!(count, 25);
    for c in [' ', '\t', '\n', '\r', '\u{b}', '\u{c}', '\u{85}', '\u{a0}', '\u{3000}'] {
        assert!(char_is_whitespace(c));
    }
    for c in ['a', '0', '_', '-', '\u{8}', '\u{e}', '\u{1f}', '\u{180e}', '\u{200b}', '\u{feff}'] {
        assert!(!char_is_whitespace(c));
    }
}

#[test]
fn name_characters_are_what_the_standard_library_takes_for_them() {
    for code in 0..=0x10ffffu32 {
        if let Some(c) = char::from_u32(code) {
            assert_eq!(
                char_is_name_char(c),
                c.is_alphanumeric() || c == '_' || c == '-',
                "U+{:04X}",
                code
            );
        }
    }
    let ascii: String = (0u8..0x80).map(char::from).filter(|c| char_is_name_char(*c)).collect();
    assert_eq!(ascii, "-0123456789ABCDEFGHIJKLMNOPQRSTUVWXYZ_abcdefghijklmnopqrstuvwxyz");
    assert!(char_is_name_char('\u{e9}'));
    assert!(char_is_name_char('\u{663}'));
    assert!(!char_is_name_char('\u{a0}'));
    assert!(!char_is_name_char('\u{2014}'));
}
