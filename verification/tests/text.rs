use proxy_manager::text::chars::{
    chars_of, is_whitespace, owned, push_chars, push_str, same_chars, same_text, string_of,
    trim_chars, trim_end_chars,
};
use proxy_manager::text::lines::{split_chars, split_lines, split_words};
use proxy_manager::text::numbers::{decimal_chars, parse_u16, parse_u32};
use proxy_manager::text::search::{
    begins_with, comes_before, fold_chars, has_substring, strip_prefix_chars, to_lower,
    trim_char_chars,
};

fn v(s: &str) -> Vec<char> {
    s.chars().collect()
}

fn s(v: &Vec<char>) -> String {
    v.iter().collect()
}

fn strings(vs: &Vec<Vec<char>>) -> Vec<String> {
    vs.iter().map(s).collect()
}

const SAMPLES: [&str; 24] = [
    "",
    "a",
    "\n",
    "\r",
    "\r\n",
    "a\n",
    "a\r\n",
    "a\r",
    "a\n\nb",
    "a\r\r\nb\r",
    "  a b  ",
    "\t[http]\t\n proxy = x \n",
    "\u{2028}x\u{2029}",
    "\u{a0}x\u{3000}",
    "\u{85}\u{1680}mid\u{2000}\u{200a}\u{202f}\u{205f}",
    "a:b:c",
    ":a:",
    "\"1234\"",
    "\"\"\"",
    "http://http://https://x",
    "https://http://x",
    "İstanbul K\u{212a}elvin ſ",
    "one  two\tthree\nfour\u{3000}five",
    "\n\n  \n",
];

#[test]
fn conversions_keep_every_character() {
    for sample in SAMPLES {
        assert_eq!(chars_of(sample), v(sample));
        assert_eq!(string_of(&v(sample)), sample);
        assert_eq!(owned(sample), sample);
    }
    assert_eq!(string_of(&vec!['配', '置', 'a']), "配置a");
}

#[test]
fn pushing_appends() {
    let mut out = v("ab");
    push_chars(&mut out, &v("cd"));
    push_str(&mut out, "ef");
    assert_eq!(s(&out), "abcdef");
}

#[test]
fn equality_of_texts() {
    assert!(same_text("abc", "abc"));
    assert!(!same_text("abc", "abd"));
    assert!(!same_text("abc", "ab"));
    assert!(same_text("", ""));
    assert!(same_chars(&v("x"), &v("x")));
    assert!(!same_chars(&v("x"), &v("y")));
}

#[test]
fn white_space_is_what_the_standard_library_calls_white_space() {
    let mut code: u32 = 0;
    while code <= 0x10ffff {
        if let Some(c) = char::from_u32(code) {
            assert_eq!(is_whitespace(c), c.is_whitespace(), "U+{:04X}", code);
        }
        code += 1;
    }
}

#[test]
fn trimming_is_what_the_standard_library_does() {
    for sample in SAMPLES {
        assert_eq!(s(&trim_chars(&v(sample))), sample.trim(), "{:?}", sample);
        assert_eq!(s(&trim_end_chars(&v(sample))), sample.trim_end(), "{:?}", sample);
    }
    assert_eq!(s(&trim_chars(&v("  x y \n"))), "x y");
    assert_eq!(s(&trim_end_chars(&v("  x y \n"))), "  x y");
}

#[test]
fn lines_are_what_the_standard_library_gives() {
    for sample in SAMPLES {
        let expected: Vec<String> = sample.lines().map(|l| l.to_string()).collect();
        assert_eq!(strings(&split_lines(&v(sample))), expected, "{:?}", sample);
    }
    assert_eq!(strings(&split_lines(&v("a\r\nb\n\nc\r"))), vec!["a", "b", "", "c\r"]);
    assert_eq!(split_lines(&v("")).len(), 0);
}

#[test]
fn fields_are_what_the_standard_library_gives() {
    for sample in SAMPLES {
        for sep in [':', ',', '"'] {
            let expected: Vec<String> = sample.split(sep).map(|l| l.to_string()).collect();
            assert_eq!(strings(&split_chars(&v(sample), sep)), expected, "{:?}", sample);
        }
    }
    assert_eq!(strings(&split_chars(&v(""), ':')), vec![""]);
    assert_eq!(strings(&split_chars(&v("a:"), ':')), vec!["a", ""]);
}

#[test]
fn words_are_what_the_standard_library_gives() {
    for sample in SAMPLES {
        let expected: Vec<String> = sample.split_whitespace().map(|l| l.to_string()).collect();
        assert_eq!(strings(&split_words(&v(sample))), expected, "{:?}", sample);
    }
    assert_eq!(strings(&split_words(&v("  TCP   0.0.0.0:7890  LISTENING 42 "))), vec![
        "TCP",
        "0.0.0.0:7890",
        "LISTENING",
        "42"
    ]);
}

#[test]
fn numbers_parse_as_the_standard_library_parses_them() {
    let samples = [
        "", "+", "-", "0", "+0", "-0", "7", "007", "65535", "65536", "+65535", "4294967295",
        "4294967296", "00000000000000000000000000080", "1 ", " 1", "1_0", "１２", "12a", "++1",
        "99999999999999999999", "٣",
    ];
    for sample in samples {
        assert_eq!(parse_u16(&v(sample)), sample.parse::<u16>().ok(), "{:?}", sample);
        assert_eq!(parse_u32(&v(sample)), sample.parse::<u32>().ok(), "{:?}", sample);
    }
    assert_eq!(parse_u16(&v("7890")), Some(7890));
    assert_eq!(parse_u16(&v("65536")), None);
    assert_eq!(parse_u32(&v("65536")), Some(65536));
}

#[test]
fn numbers_print_as_the_standard_library_prints_them() {
    for n in [0u32, 1, 9, 10, 11, 99, 100, 1080, 7890, 65535, 65536, 4294967295] {
        assert_eq!(s(&decimal_chars(n)), n.to_string());
        assert_eq!(parse_u32(&decimal_chars(n)), Some(n));
    }
}

#[test]
fn prefixes_and_substrings() {
    for sample in SAMPLES {
        for needle in ["", "a", "http://", "\n", "x", "b:c", "K"] {
            assert_eq!(begins_with(&v(sample), &v(needle)), sample.starts_with(needle));
            assert_eq!(has_substring(&v(sample), &v(needle)), sample.contains(needle));
            if !needle.is_empty() {
                assert_eq!(
                    s(&strip_prefix_chars(&v(sample), &v(needle))),
                    sample.strip_prefix(needle).unwrap_or(sample)
                );
            }
        }
        assert_eq!(s(&trim_char_chars(&v(sample), '"')), sample.trim_matches('"'));
    }
    assert_eq!(s(&strip_prefix_chars(&v("ababx"), &v("ab"))), "abx");
    assert_eq!(s(&strip_prefix_chars(&v("abab"), &v(""))), "abab");
    assert_eq!(s(&trim_char_chars(&v("\"\"12\"3\"\""), '"')), "12\"3");
}

#[test]
fn folding_lowers_ascii_capitals_only() {
    let mut code: u32 = 0;
    while code <= 0x10ffff {
        if let Some(c) = char::from_u32(code) {
            assert_eq!(to_lower(c), c.to_ascii_lowercase());
        }
        code += 1;
    }
    assert_eq!(s(&fold_chars(&v("HtTp-PROXY=İK\u{212a}"))), "http-proxy=İk\u{212a}");
}

#[test]
fn folding_decides_as_unicode_lower_case_does_for_the_names_the_editors_look_for() {
    // The editors compare folded text with these names. No character outside ASCII
    // has a lower-case form that begins with a letter of theirs.
    let letters = "htpsroxy=-";
    let mut code: u32 = 0x80;
    while code <= 0x10ffff {
        if let Some(c) = char::from_u32(code) {
            for lowered in c.to_lowercase() {
                assert!(!letters.contains(lowered), "U+{:04X}", code);
            }
        }
        code += 1;
    }
}

#[test]
fn order_of_texts_is_the_order_of_strings() {
    for a in SAMPLES {
        for b in SAMPLES {
            assert_eq!(comes_before(&v(a), &v(b)), a < b, "{:?} {:?}", a, b);
        }
    }
    assert!(comes_before(&v("IntelliJIdea10"), &v("IntelliJIdea9")));
    assert!(!comes_before(&v("same"), &v("same")));
}
