use config_server::text::{
    decimal_string, find_char, from_chars, is_space_char, join_with, same_text,
    signed_decimal_string, slice_chars, split_chars, split_comma_list, to_chars, trim_chars,
};

fn chars(s: &str) -> Vec<char> {
    s.chars().collect()
}

#[test]
fn white_space_is_what_the_standard_library_calls_so() {
    for code in 0u32..=0x10FFFF {
        if let Some(c) = char::from_u32(code) {
            assert_eq!(is_space_char(c), c.is_whitespace(), "U+{:04X}", code);
        }
    }
}

#[test]
fn trim_follows_the_standard_library() {
    for s in ["", " ", "a", "  a b  ", "\t\r\n x \u{3000}", "\u{00A0}y\u{2003}", "no-trim", " \u{FEFF}z "] {
        assert_eq!(from_chars(&trim_chars(&chars(s))), s.trim(), "{:?}", s);
    }
}

#[test]
fn chars_and_strings_convert_both_ways() {
    for s in ["", "abc", "grüße 🚀", "a\nb"] {
        assert_eq!(to_chars(s), chars(s));
        assert_eq!(from_chars(&chars(s)), s);
    }
    assert_eq!(slice_chars(&chars("hello"), 1, 3), chars("el"));
    assert_eq!(slice_chars(&chars("hello"), 2, 2), chars(""));
}

#[test]
fn find_gives_first_occurrence_or_length() {
    let text = chars("a=b=c");
    assert_eq!(find_char(&text, 0, '='), 1);
    assert_eq!(find_char(&text, 2, '='), 3);
    assert_eq!(find_char(&text, 4, '='), 5);
    assert_eq!(find_char(&text, 5, '='), 5);
    assert_eq!(find_char(&chars(""), 0, '='), 0);
}

#[test]
fn split_follows_the_standard_library() {
    for s in ["", ",", "a", "a,b", ",a,,b,", "a,b,c", ",,"] {
        let pieces: Vec<String> = split_chars(&chars(s), ',').iter().map(from_chars).collect();
        let expected: Vec<String> = s.split(',').map(|p| p.to_string()).collect();
        assert_eq!(pieces, expected, "{:?}", s);
    }
    assert_eq!(split_comma_list(" dev , prod,,x "), vec!["dev", "prod", "", "x"]);
    assert_eq!(split_comma_list(""), vec![""]);
}

#[test]
fn decimal_follows_the_standard_library() {
    for n in [0u64, 1, 9, 10, 11, 99, 100, 12345, u64::MAX] {
        assert_eq!(decimal_string(n), n.to_string());
    }
    for i in [0i64, -1, 1, -10, 42, i64::MAX, i64::MIN, -9223372036854775807] {
        assert_eq!(signed_decimal_string(i), i.to_string());
    }
}

#[test]
fn joining_and_comparing_texts() {
    assert_eq!(join_with("application", '-', "dev"), "application-dev");
    assert_eq!(join_with("", '.', ""), ".");
    assert!(same_text("a", "a"));
    assert!(!same_text("a", "A"));
    assert!(!same_text("a", "ab"));
    assert!(same_text("", ""));
}
