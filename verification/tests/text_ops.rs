use git_repo_analyzer::text::{
    count_lines, first_chars_of, parse_u64_chars, push_decimal, replace_chars, str_chars,
    string_from_chars, strip_leading_chars, strip_trailing_chars, trim_chars,
};

fn chars(s: &str) -> Vec<char> {
    s.chars().collect()
}

#[test]
fn trims_unicode_white_space() {
    assert_eq!(string_from_chars(&trim_chars(&chars("\u{3000} a b\t\n"))), "a b");
    assert_eq!(string_from_chars(&trim_chars(&chars("   "))), "");
    let once = trim_chars(&chars("\u{a0}x\u{2028}"));
    assert_eq!(trim_chars(&once), once);
}

#[test]
fn strips_repeated_fences() {
    let s = chars("``````a```");
    let f = chars("```");
    assert_eq!(string_from_chars(&strip_leading_chars(&s, &f)), "a```");
    assert_eq!(string_from_chars(&strip_trailing_chars(&chars("a``````"), &f)), "a");
    assert_eq!(string_from_chars(&strip_trailing_chars(&chars("a````"), &f)), "a`");
}

#[test]
fn replaces_left_to_right() {
    let out = replace_chars(&chars("aaa"), &chars("aa"), &chars("b"));
    assert_eq!(string_from_chars(&out), "ba");
    let same = replace_chars(&chars("no holes"), &chars("{}"), &chars("x"));
    assert_eq!(string_from_chars(&same), "no holes");
}

#[test]
fn decimal_round_trip() {
    for n in [0u64, 7, 10, 180, 365, 1725029869, u64::MAX] {
        let mut s = String::new();
        push_decimal(&mut s, n);
        assert_eq!(s, n.to_string());
        assert_eq!(parse_u64_chars(&str_chars(&s)), Some(n));
    }
}

#[test]
fn counts_lines_like_std() {
    for s in ["", "a", "a\n", "a\nb", "\n", "a\r\n\r\nb\n", "x\n\n"] {
        assert_eq!(count_lines(&chars(s)), s.lines().count());
    }
}

#[test]
fn first_chars_takes_at_most_k() {
    assert_eq!(string_from_chars(&first_chars_of(&chars("héllo"), 2)), "hé");
    assert_eq!(string_from_chars(&first_chars_of(&chars("hi"), 10)), "hi");
}
