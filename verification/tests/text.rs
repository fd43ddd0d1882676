use study_tracker::text::{
    chars_of, find, is_whitespace_char, matches_at, same_text, split, string_of, trim,
};

fn chars(s: &str) -> Vec<char> {
    s.chars().collect()
}

fn text(s: &[char]) -> String {
    s.iter().collect()
}

#[test]
fn whitespace_agrees_with_the_standard_library() {
    for code in 0u32..0x11_0000 {
        if let Some(c) = char::from_u32(code) {
            assert_eq!(is_whitespace_char(c), c.is_whitespace(), "U+{:04X}", code);
        }
    }
}

#[test]
fn chars_and_strings_convert_both_ways() {
    let s = "a\u{e9}\u{65e5}\u{1f600} z";
    let v = chars_of(s);
    assert_eq!(v, chars(s));
    assert_eq!(string_of(&v), s);
    assert_eq!(chars_of(""), Vec::<char>::new());
    assert_eq!(string_of(&[]), "");
}

#[test]
fn trim_removes_whitespace_at_both_ends_only() {
    assert_eq!(text(trim(&chars("  a b\t\n"))), "a b");
    assert_eq!(text(trim(&chars("a"))), "a");
    assert_eq!(text(trim(&chars(""))), "");
    assert_eq!(text(trim(&chars(" \u{a0}\u{3000}\r\n"))), "");
    assert_eq!(text(trim(&chars("\u{2003}x\u{85}"))), "x");
}

#[test]
fn trim_agrees_with_the_standard_library() {
    for s in ["", " ", "x", "  x  y  ", "\t\n\r x", "x \u{1680}", "\u{200b}x\u{200b}", "\u{feff}a"] {
        assert_eq!(text(trim(&chars(s))), s.trim(), "{:?}", s);
    }
}

#[test]
fn matches_at_checks_bounds_and_contents() {
    let s = chars("ab>>>cd");
    let pat = chars(">>>");
    assert!(matches_at(&s, &pat, 2));
    assert!(!matches_at(&s, &pat, 1));
    assert!(!matches_at(&s, &pat, 5));
    assert!(!matches_at(&s, &pat, 100));
    assert!(matches_at(&s, &[], 7));
    assert!(!matches_at(&s, &[], 8));
}

#[test]
fn find_gives_the_first_occurrence_from_a_start() {
    let s = chars("a,b,,c");
    let pat = chars(",");
    assert_eq!(find(&s, &pat, 0), Some(1));
    assert_eq!(find(&s, &pat, 2), Some(3));
    assert_eq!(find(&s, &pat, 4), Some(4));
    assert_eq!(find(&s, &pat, 5), None);
    assert_eq!(find(&s, &pat, 50), None);
    assert_eq!(find(&chars("ab"), &chars("abc"), 0), None);
}

#[test]
fn split_agrees_with_the_standard_library() {
    let cases = [
        ("", ","),
        ("a", ","),
        ("a,b", ","),
        (",a,,b,", ","),
        ("a>>>b>>>c", ">>>"),
        ("a>>>>b", ">>>"),
        (">>>>>>", ">>>"),
        ("a>>b", ">>>"),
        ("x\ny\n", "\n"),
        ("aaaa", "aa"),
    ];
    for (s, pat) in cases {
        let sc = chars(s);
        let pc = chars(pat);
        let got: Vec<String> = split(&sc, &pc).iter().map(|p| text(p)).collect();
        let want: Vec<String> = s.split(pat).map(|p| p.to_string()).collect();
        assert_eq!(got, want, "{:?} by {:?}", s, pat);
    }
}

#[test]
fn split_on_an_empty_pattern_gives_the_whole() {
    let s = chars("abc");
    let parts = split(&s, &[]);
    assert_eq!(parts.len(), 1);
    assert_eq!(text(parts[0]), "abc");
}

#[test]
fn same_text_compares_contents() {
    assert!(same_text("", ""));
    assert!(same_text("isa", "isa"));
    assert!(!same_text("isa", "esa"));
    assert!(!same_text("isa", "is"));
    assert!(!same_text("is", "isa"));
    assert!(same_text("\u{e9}t\u{e9}", "\u{e9}t\u{e9}"));
    assert!(!same_text("\u{e9}", "e"));
}
