use repo_guard::listing::{
    glob_entry, glob_lines, leaves_out, name_comes_before, parse_listing, FileInfo, RawEntry,
};

fn raw(name: &str, is_dir: bool, size: u64) -> RawEntry {
    RawEntry { name: name.to_string(), is_dir, size }
}

fn info(name: &str, path: &str, is_dir: bool, size: u64) -> FileInfo {
    FileInfo { name: name.to_string(), path: path.to_string(), is_dir, size }
}

#[test]
fn directories_come_first_and_names_are_ordered() {
    let raws = vec![
        raw("zeta.txt", false, 3),
        raw("src", true, 0),
        raw("alpha.txt", false, 1),
        raw("docs", true, 0),
        raw("Makefile", false, 9),
    ];
    let listed = parse_listing(&raws, "");
    assert_eq!(
        listed,
        vec![
            info("docs", "docs", true, 0),
            info("src", "src", true, 0),
            info("Makefile", "Makefile", false, 9),
            info("alpha.txt", "alpha.txt", false, 1),
            info("zeta.txt", "zeta.txt", false, 3),
        ]
    );
}

#[test]
fn hidden_and_tool_directories_are_left_out() {
    let raws = vec![
        raw(".git", true, 0),
        raw(".env", false, 10),
        raw("node_modules", true, 0),
        raw("target", true, 0),
        raw("targets", true, 0),
        raw("node_modules2", false, 1),
        raw("a", false, 1),
    ];
    let names: Vec<String> = parse_listing(&raws, "x").into_iter().map(|e| e.name).collect();
    assert_eq!(names, vec!["targets", "a", "node_modules2"]);
}

#[test]
fn paths_lead_from_the_listed_directory() {
    let raws = vec![raw("a.rs", false, 5)];
    assert_eq!(parse_listing(&raws, "src/bin"), vec![info("a.rs", "src/bin/a.rs", false, 5)]);
    assert_eq!(parse_listing(&raws, "src/"), vec![info("a.rs", "src/a.rs", false, 5)]);
    assert_eq!(parse_listing(&raws, "."), vec![info("a.rs", "./a.rs", false, 5)]);
}

#[test]
fn order_agrees_with_a_sort_by_kind_and_name() {
    let names = ["b", "a", "ab", "B", "é", "z", "a0", "", "aa", "Z", "ä", "b"];
    let raws: Vec<RawEntry> =
        names.iter().enumerate().map(|(i, n)| raw(n, i % 3 == 0, i as u64)).collect();
    let mut expected: Vec<(String, bool, u64)> =
        raws.iter().map(|r| (r.name.clone(), r.is_dir, r.size)).collect();
    expected.sort_by(|a, b| b.1.cmp(&a.1).then(a.0.cmp(&b.0)));
    let listed: Vec<(String, bool, u64)> =
        parse_listing(&raws, "d").into_iter().map(|e| (e.name, e.is_dir, e.size)).collect();
    assert_eq!(listed, expected);
}

#[test]
fn empty_directory_has_an_empty_listing() {
    assert_eq!(parse_listing(&vec![], "src"), vec![]);
}

#[test]
fn scan_output_is_taken_line_by_line() {
    assert_eq!(glob_lines("/r/a.rs\n\n/r/b/c.rs\n"), vec!["/r/a.rs", "/r/b/c.rs"]);
    assert_eq!(glob_lines(""), Vec::<String>::new());
}

#[test]
fn found_file_becomes_an_entry() {
    assert_eq!(
        glob_entry(Some("/r/b/c.rs"), "/r", Some(12)),
        Some(info("c.rs", "b/c.rs", false, 12))
    );
}

#[test]
fn file_that_vanished_is_dropped() {
    assert_eq!(glob_entry(None, "/r", Some(12)), None);
    assert_eq!(glob_entry(Some("/r/b/c.rs"), "/r", None), None);
}

#[test]
fn file_outside_the_root_is_dropped() {
    assert_eq!(glob_entry(Some("/other/c.rs"), "/r", Some(1)), None);
    assert_eq!(glob_entry(Some("/rr/c.rs"), "/r", Some(1)), None);
}

#[test]
fn path_without_a_file_name_is_dropped() {
    assert_eq!(glob_entry(Some("/"), "/", Some(1)), None);
    assert_eq!(glob_entry(Some("/r"), "/r", Some(1)), Some(info("r", "", false, 1)));
}

#[test]
fn names_are_ordered_as_std_orders_strings() {
    let names = ["", "a", "A", "ab", "b", "é", "e", "z", "\u{10000}", "\u{ffff}", "a\u{0}", "aa"];
    for a in names {
        for b in names {
            let x: Vec<char> = a.chars().collect();
            let y: Vec<char> = b.chars().collect();
            assert_eq!(name_comes_before(&x, &y), a < b, "{:?} {:?}", a, b);
        }
    }
}

#[test]
fn entries_of_one_name_keep_their_order() {
    let raws = vec![raw("a", false, 1), raw("a", false, 2), raw("a", true, 3), raw("a", false, 4)];
    let sizes: Vec<u64> = parse_listing(&raws, "").into_iter().map(|e| e.size).collect();
    assert_eq!(sizes, vec![3, 1, 2, 4]);
}

#[test]
fn names_that_are_left_out() {
    for (name, out) in [
        (".", true), (".git", true), ("..", true), ("node_modules", true), ("target", true),
        ("", false), ("a.b", false), ("Target", false), ("node_modules_", false), ("src", false),
    ] {
        assert_eq!(leaves_out(&name.chars().collect()), out, "{:?}", name);
    }
}
