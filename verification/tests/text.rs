use handy::text::{
    after_last_mark, append_chars, before_any, before_white, chars_of, ends_with_chars, find_chars,
    has_char, is_blank, is_control, is_whitespace, replace_chars, same_chars, same_text, string_of,
    to_ascii_lower, trim_chars, trim_text,
};

fn chars(s: &str) -> Vec<char> {
    s.chars().collect()
}

fn text(s: &[char]) -> String {
    s.iter().collect()
}

#[test]
fn white_space_is_that_of_unicode() {
    for code in 0..=0x10FFFFu32 {
        if let Some(c) = char::from_u32(code) {
            assert_eq!(is_whitespace(c), c.is_whitespace(), "{code:x}");
        }
    }
}

#[test]
fn control_characters_are_those_of_unicode() {
    for code in 0..=0x10FFFFu32 {
        if let Some(c) = char::from_u32(code) {
            assert_eq!(is_control(c), c.is_control(), "{code:x}");
        }
    }
}

#[test]
fn ascii_letters_have_a_lower_case() {
    for code in 0..=0x2FFu32 {
        if let Some(c) = char::from_u32(code) {
            assert_eq!(to_ascii_lower(c), c.to_ascii_lowercase());
        }
    }
}

#[test]
fn texts_and_characters_convert_into_each_other() {
    for s in ["", "a", "Grüße, 世界", "\u{200B}x"] {
        assert_eq!(chars_of(s), chars(s));
        assert_eq!(string_of(&chars(s)), s);
    }
}

#[test]
fn trimming_agrees_with_std() {
    for s in ["", " ", "\t\n", "a", " a", "a ", "  a b\u{3000}", "\u{a0}x\u{2009}\r\n"] {
        assert_eq!(trim_text(s), s.trim());
        assert_eq!(text(trim_chars(&chars(s))), s.trim());
        assert_eq!(is_blank(s), s.trim().is_empty());
    }
}

#[test]
fn searching_agrees_with_std() {
    let cases = [
        ("", ""),
        ("abc", ""),
        ("abcabc", "abc"),
        ("abcabc", "cab"),
        ("aaab", "aab"),
        ("abc", "abcd"),
        ("abc", "x"),
    ];
    for (s, pattern) in cases {
        assert_eq!(find_chars(&chars(s), &chars(pattern)), s.find(pattern));
        assert_eq!(ends_with_chars(&chars(s), &chars(pattern)), s.ends_with(pattern));
    }
    assert!(has_char(&chars("a.b"), '.'));
    assert!(!has_char(&chars("ab"), '.'));
}

#[test]
fn replacing_goes_from_the_left_without_overlap() {
    let cases = [
        ("aaaa", "aa", "b", "bb"),
        ("aaa", "aa", "b", "ba"),
        ("x${output}y${output}", "${output}", "T", "xTyT"),
        ("none", "zz", "b", "none"),
        ("aba", "a", "aa", "aabaa"),
    ];
    for (s, pattern, with, expected) in cases {
        assert_eq!(text(&replace_chars(&chars(s), &chars(pattern), &chars(with))), expected);
        assert_eq!(s.replace(pattern, with), expected);
    }
}

#[test]
fn splitting_agrees_with_std() {
    assert_eq!(text(before_any(&chars("host/path?q#f"), &['/', '?', '#'])), "host");
    assert_eq!(text(before_any(&chars("host"), &['/'])), "host");
    assert_eq!(text(before_any(&chars("/x"), &['/'])), "");
    assert_eq!(text(after_last_mark(&chars("a@b@c"), '@')), "c");
    assert_eq!(text(after_last_mark(&chars("abc"), '@')), "abc");
    assert_eq!(text(after_last_mark(&chars("abc@"), '@')), "");
    assert_eq!(text(before_white(&chars("two words"))), "two");
    assert_eq!(text(before_white(&chars("one"))), "one");
}

#[test]
fn comparing_is_by_characters() {
    assert!(same_text("", ""));
    assert!(same_text("äb", "äb"));
    assert!(!same_text("a", "ab"));
    assert!(!same_text("ab", "ac"));
    assert!(same_chars(&chars("ab"), &chars("ab")));
    assert!(!same_chars(&chars("ab"), &chars("b")));
    let mut out = chars("ab");
    append_chars(&mut out, &chars("cd"));
    assert_eq!(text(&out), "abcd");
}
