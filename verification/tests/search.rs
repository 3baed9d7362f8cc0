use repo_guard::search::{parse_line_number, parse_match_line, parse_search_output, GrepMatch};

fn m(file: &str, line_number: u32, content: &str) -> GrepMatch {
    GrepMatch { file: file.to_string(), line_number, content: content.to_string() }
}

fn line(s: &str) -> Option<GrepMatch> {
    parse_match_line(&s.chars().collect())
}

#[test]
fn malformed_line_is_dropped() {
    let found = parse_search_output("a/b.txt:10:hello\nmalformed\nc.txt:3:world\n");
    assert_eq!(found, vec![m("a/b.txt", 10, "hello"), m("c.txt", 3, "world")]);
}

#[test]
fn matches_are_shown_from_the_root() {
    let found = parse_search_output("/repo/a/b.txt:10:hello\nmalformed\n/repo/c.txt:3:world\n");
    let shown: Vec<GrepMatch> = found
        .into_iter()
        .map(|g| {
            let resolved = g.file.clone();
            g.rebased(Some(&resolved), "/repo")
        })
        .collect();
    assert_eq!(shown, vec![m("a/b.txt", 10, "hello"), m("c.txt", 3, "world")]);
}

#[test]
fn file_outside_the_root_keeps_its_printed_path() {
    let g = m("link/x.txt", 1, "c").rebased(Some("/elsewhere/x.txt"), "/repo");
    assert_eq!(g, m("link/x.txt", 1, "c"));
}

#[test]
fn unresolved_file_stands_as_printed() {
    let g = m("/repo/gone.txt", 2, "c").rebased(None, "/repo");
    assert_eq!(g, m("gone.txt", 2, "c"));
    let g = m("gone.txt", 2, "c").rebased(None, "/repo");
    assert_eq!(g, m("gone.txt", 2, "c"));
}

#[test]
fn content_keeps_its_colons() {
    assert_eq!(line("f.rs:7:let x: u32 = 1;"), Some(m("f.rs", 7, "let x: u32 = 1;")));
    assert_eq!(line("f.rs:7::"), Some(m("f.rs", 7, ":")));
}

#[test]
fn line_without_content_has_empty_content() {
    assert_eq!(line("f.rs:7"), Some(m("f.rs", 7, "")));
    assert_eq!(line("f.rs:7:"), Some(m("f.rs", 7, "")));
}

#[test]
fn line_numbers() {
    assert_eq!(line("f:+5:x"), Some(m("f", 5, "x")));
    assert_eq!(line("f:007:x"), Some(m("f", 7, "x")));
    assert_eq!(line("f:4294967295:x"), Some(m("f", 4294967295, "x")));
    assert_eq!(line("f:4294967296:x"), None);
    assert_eq!(line("f:99999999999999999999999:x"), None);
    assert_eq!(line("f:0:x"), None);
    assert_eq!(line("f:-1:x"), None);
    assert_eq!(line("f::x"), None);
    assert_eq!(line("f:+:x"), None);
    assert_eq!(line("f:++1:x"), None);
    assert_eq!(line("f:1a:x"), None);
    assert_eq!(line("f: 1:x"), None);
    assert_eq!(line("f:١:x"), None);
}

#[test]
fn lines_without_a_colon_or_empty() {
    assert_eq!(line(""), None);
    assert_eq!(line("nothing here"), None);
    assert_eq!(line(":3:x"), Some(m("", 3, "x")));
}

#[test]
fn empty_output_has_no_matches() {
    assert_eq!(parse_search_output(""), vec![]);
    assert_eq!(parse_search_output("\n\n"), vec![]);
}

#[test]
fn carriage_returns_end_lines_too() {
    let found = parse_search_output("a:1:x\r\nb:2:y");
    assert_eq!(found, vec![m("a", 1, "x"), m("b", 2, "y")]);
}

#[test]
fn line_numbers_agree_with_std_but_for_zero() {
    for s in [
        "", "+", "-", "0", "00", "+0", "1", "+1", "-1", "01", "10", "4294967295", "+4294967295",
        "4294967296", "42949672950", "18446744073709551616", "1 ", " 1", "1_0", "0x10", "1e3",
        "١٢", "12a", "a12", "1+", "+-1",
    ] {
        let expected = s.parse::<u32>().ok().filter(|n| *n >= 1);
        assert_eq!(parse_line_number(&s.chars().collect()), expected, "{:?}", s);
    }
}
