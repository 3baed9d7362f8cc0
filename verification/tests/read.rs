use repo_guard::read::read_page;

fn ten_lines() -> String {
    (1..=10).map(|i| format!("line{}", i)).collect::<Vec<_>>().join("\n")
}

#[test]
fn page_of_three_lines_after_two() {
    let text = read_page(ten_lines(), Some(2), Some(3));
    assert_eq!(text, "     3|line3\n     4|line4\n     5|line5");
    assert_eq!(text.lines().count(), 3);
}

#[test]
fn no_offset_and_no_limit_gives_the_content_verbatim() {
    let content = "a\r\nb\n\n".to_string();
    assert_eq!(read_page(content.clone(), None, None), content);
}

#[test]
fn offset_alone_reads_to_the_end() {
    assert_eq!(read_page(ten_lines(), Some(8), None), "     9|line9\n    10|line10");
}

#[test]
fn limit_alone_reads_from_the_start() {
    assert_eq!(read_page(ten_lines(), None, Some(2)), "     1|line1\n     2|line2");
}

#[test]
fn offset_past_the_end_gives_nothing() {
    assert_eq!(read_page(ten_lines(), Some(10), Some(3)), "");
    assert_eq!(read_page(ten_lines(), Some(99), None), "");
}

#[test]
fn limit_past_the_end_stops_at_the_end() {
    assert_eq!(read_page(ten_lines(), Some(9), Some(usize::MAX)), "    10|line10");
    assert_eq!(read_page(ten_lines(), Some(9), Some(5)), "    10|line10");
}

#[test]
fn zero_limit_gives_nothing() {
    assert_eq!(read_page(ten_lines(), Some(1), Some(0)), "");
}

#[test]
fn line_endings_are_not_part_of_a_line() {
    assert_eq!(read_page("a\r\nb\n".to_string(), Some(0), None), "     1|a\n     2|b");
    assert_eq!(read_page("a\n\nb".to_string(), Some(0), None), "     1|a\n     2|\n     3|b");
    assert_eq!(read_page("a\rb\r".to_string(), Some(0), None), "     1|a\rb\r");
}

#[test]
fn numbered_lines_agree_with_std() {
    for content in ["", "\n", "a", "a\n", "a\r\n\r\nb", "\r\n", "x\r", "a\n\n", "é\nü\n"] {
        let expected: Vec<String> = content
            .lines()
            .enumerate()
            .map(|(i, l)| format!("{:>6}|{}", i + 1, l))
            .collect();
        assert_eq!(read_page(content.to_string(), Some(0), None), expected.join("\n"));
    }
}

#[test]
fn wide_numbers_push_the_column() {
    let content = "x\n".repeat(1_000_001);
    let text = read_page(content, Some(999_998), Some(3));
    assert_eq!(text, "999999|x\n1000000|x\n1000001|x");
}
