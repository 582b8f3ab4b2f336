use slimcode::agent::files::{slice, slice_lines};

#[test]
fn slice_lines_without_range_returns_content_unchanged() {
    let content = "line1\nline2\nline3\n";
    assert_eq!(slice_lines(content, None, None), content);
    assert_eq!(slice_lines(content, Some(1), None), content);
    assert_eq!(slice_lines(content, Some(0), None), content);
}

#[test]
fn slice_lines_applies_1_indexed_offset_and_limit() {
    let content = "line1\nline2\nline3\nline4\nline5\n";
    assert_eq!(slice_lines(content, Some(2), Some(2)), "line2\nline3");
    assert_eq!(slice_lines(content, Some(4), None), "line4\nline5");
    assert_eq!(slice_lines(content, None, Some(2)), "line1\nline2");
}

#[test]
fn slice_lines_clamps_at_eof_and_zero_limit() {
    let content = "line1\nline2\nline3\n";
    assert_eq!(slice_lines(content, Some(10), Some(5)), "");
    assert_eq!(slice_lines(content, Some(1), Some(0)), "");
    assert_eq!(slice_lines(content, Some(2), Some(99)), "line2\nline3");
    assert_eq!(slice_lines("", Some(1), Some(3)), "");
}

#[test]
fn slice_lines_keeps_no_trailing_newline_content_exact() {
    assert_eq!(slice_lines("a\nb", None, Some(1)), "a");
    assert_eq!(slice_lines("a\nb", Some(2), Some(5)), "b");
}

#[test]
fn slice_keeps_crlf_inside_the_window() {
    assert_eq!(slice("a\r\nb\r\nc\r\n", 1, 1), "b\r");
    assert_eq!(slice("a\nb\nc", 0, usize::MAX), "a\nb\nc");
}
