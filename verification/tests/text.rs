use repo_guard::text::{
    char_is_space, chars_of, contains_chars, find_char, same_chars, slice_chars, split_lines,
    starts_with, string_of, trim_chars,
};

fn v(s: &str) -> Vec<char> {
    s.chars().collect()
}

#[test]
fn characters_and_back() {
    assert_eq!(chars_of("héllo"), vec!['h', 'é', 'l', 'l', 'o']);
    assert_eq!(string_of(&vec!['a', 'ß', '😀']), "aß😀");
    assert_eq!(chars_of(""), Vec::<char>::new());
}

#[test]
fn trimming_agrees_with_std() {
    for s in ["", " ", "a", " a ", "\t\n a b \r\n", "\u{3000}x\u{2003}", "\u{85}y\u{a0}", "\u{200b}z", "\u{1680}\u{2028}\u{2029}\u{202f}\u{205f}q\u{b}\u{c}"] {
        assert_eq!(trim_chars(&v(s)), v(s.trim()));
    }
}

#[test]
fn prefixes_and_fragments() {
    assert!(starts_with(&v("git status"), &v("git ")));
    assert!(!starts_with(&v("gi"), &v("git")));
    assert!(starts_with(&v("x"), &v("")));
    assert!(contains_chars(&v("a > b"), &v("> ")));
    assert!(contains_chars(&v("abc"), &v("c")));
    assert!(contains_chars(&v("abc"), &v("")));
    assert!(contains_chars(&v(""), &v("")));
    assert!(!contains_chars(&v("ab"), &v("abc")));
    assert!(!contains_chars(&v("a>b"), &v("> ")));
}

#[test]
fn split_lines_agree_with_std() {
    for s in ["", "\n", "a\nb", "a\nb\n", "a\r\nb\r\n", "a\r", "\r\n\r\n", "a\n\n\nb", "\ra\n"] {
        let expected: Vec<Vec<char>> = s.lines().map(v).collect();
        assert_eq!(split_lines(&v(s)), expected);
    }
}

#[test]
fn whitespace_agrees_with_std_on_every_character() {
    for n in 0..=0x10FFFFu32 {
        if let Some(c) = char::from_u32(n) {
            assert_eq!(char_is_space(c), c.is_whitespace(), "U+{:04X}", n);
        }
    }
}

#[test]
fn finding_and_slicing() {
    let s = v("a:b:c");
    assert_eq!(find_char(&s, 0, ':'), 1);
    assert_eq!(find_char(&s, 2, ':'), 3);
    assert_eq!(find_char(&s, 4, ':'), 5);
    assert_eq!(find_char(&s, 5, ':'), 5);
    assert_eq!(slice_chars(&s, 2, 5), v("b:c"));
    assert_eq!(slice_chars(&s, 3, 3), v(""));
    assert!(same_chars(&s, &v("a:b:c")));
    assert!(!same_chars(&s, &v("a:b:d")));
    assert!(!same_chars(&s, &v("a:b")));
}
