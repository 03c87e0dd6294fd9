use shimmy::text::{
    chars, contains, decimal_text, ends_with, find_from, replace, rfind_char, same, starts_with,
    trim_range, white_space,
};

#[test]
fn searching() {
    for (s, p) in [("", ""), ("abc", ""), ("abcabc", "ca"), ("aab", "ab"), ("ab", "abc"), ("\u{e9}x", "x")] {
        assert_eq!(contains(s, p), s.contains(p), "{s} {p}");
        assert_eq!(starts_with(s, p), s.starts_with(p), "{s} {p}");
        assert_eq!(ends_with(s, p), s.ends_with(p), "{s} {p}");
    }
    let cs = chars("\u{e9}-a-a");
    assert_eq!(find_from(&cs, &chars("-a"), 0), Some(1));
    assert_eq!(find_from(&cs, &chars("-a"), 2), Some(3));
    assert_eq!(find_from(&cs, &chars("-a"), 4), None);
    assert_eq!(find_from(&cs, &chars(""), 5), Some(5));
    assert_eq!(rfind_char(&cs, 'a'), Some(4));
    assert_eq!(rfind_char(&cs, 'b'), None);
    assert!(same("a", "a") && !same("a", "b") && !same("a", "ab"));
}

#[test]
fn replacing() {
    for (s, p, w) in [("aaa", "aa", "b"), ("a-b-c", "-", ""), ("", "x", "y"), ("xx", "x", "xx"), ("n\u{e9}", "\u{e9}", "e")] {
        assert_eq!(replace(s, p, w), s.replace(p, w));
    }
}

#[test]
fn trimming() {
    for s in ["", " ", "a", " a ", "\n\u{2003}a b\u{85}\u{b}", "\u{200b}a", "\u{180e}a\u{feff}"] {
        let cs = chars(s);
        let (a, b) = trim_range(&cs, 0, cs.len());
        assert_eq!(cs[a..b].iter().collect::<String>(), s.trim());
    }
    let cs = chars("x y  z");
    assert_eq!(trim_range(&cs, 1, 5), (2, 3));
    assert_eq!(trim_range(&cs, 3, 5), (5, 5));
}

#[test]
fn white_space_is_that_of_unicode() {
    for n in 0..=0x10ffffu32 {
        if let Some(c) = char::from_u32(n) {
            assert_eq!(white_space(c), c.is_whitespace(), "{n:x}");
        }
    }
}

#[test]
fn decimals() {
    for n in [0, 9, 10, 19, 100, 12345, usize::MAX] {
        assert_eq!(decimal_text(n), n.to_string());
    }
}
