use zacc::ingest::data_lines;

fn lines_of(content: &str, start_line: usize) -> Vec<String> {
    let bytes: Vec<u8> = content.as_bytes().to_vec();
    data_lines(&bytes, start_line)
        .into_iter()
        .map(|l| String::from_utf8(l).unwrap())
        .collect()
}

#[test]
fn data_lines_skips_metadata_and_comments() {
    let content = "device: test rig\n1.0,0.1,0.2,9.8\n# a comment\n2.0,0.0,0.1,9.7\n";
    assert_eq!(lines_of(content, 1), vec!["1.0,0.1,0.2,9.8", "2.0,0.0,0.1,9.7"]);
}

#[test]
fn data_lines_keeps_file_order_and_count() {
    let content = "a\nb\nc\nd\n";
    assert_eq!(lines_of(content, 0), vec!["a", "b", "c", "d"]);
}

#[test]
fn data_lines_strips_carriage_returns() {
    let content = "first\r\nsecond\r\n";
    assert_eq!(lines_of(content, 0), vec!["first", "second"]);
}

#[test]
fn data_lines_drops_blank_lines() {
    let content = "\n\nx\n\ny\n";
    assert_eq!(lines_of(content, 0), vec!["x", "y"]);
}

#[test]
fn data_lines_without_trailing_newline() {
    let content = "x\ny";
    assert_eq!(lines_of(content, 0), vec!["x", "y"]);
}

#[test]
fn data_lines_skip_beyond_end_is_empty() {
    let content = "a\nb\n";
    assert!(lines_of(content, 5).is_empty());
    assert!(lines_of("", 0).is_empty());
}

#[test]
fn data_lines_comment_only_after_skip_region() {
    // The skip count applies to raw lines, comments included; a comment
    // line inside the skipped region is simply part of it.
    let content = "# header comment\ndata\n";
    assert_eq!(lines_of(content, 1), vec!["data"]);
    assert_eq!(lines_of(content, 0), vec!["data"]);
}
