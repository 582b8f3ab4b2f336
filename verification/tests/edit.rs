use slimcode::agent::edit::{apply_edits, edits_would_underflow, AppliedEdit, Edit};

fn e(old: &str, new: &str) -> Edit {
    Edit::new(old, new)
}

fn ok(content: &str, edits: &[Edit]) -> AppliedEdit {
    apply_edits(content, edits, "demo.txt").expect("expected success")
}

fn err(content: &str, edits: &[Edit]) -> String {
    apply_edits(content, edits, "demo.txt").expect_err("expected error")
}

const FILE: &str =
    "fn main() {\n    println!(\"hello\");\n    let x = 1;\n    println!(\"hello\");\n}\n";

#[test]
fn unique_exact_match_applies_and_reports_first_changed_line() {
    let applied = ok(FILE, &[e("let x = 1;", "let y = 2;")]);
    assert!(applied.new_content.contains("let y = 2;"));
    assert_eq!(applied.first_changed_line, Some(3));
}

#[test]
fn no_match_errors() {
    let msg = err(FILE, &[e("fn missing()", "fn added()")]);
    assert!(msg.contains("Could not find the exact text"), "msg: {msg}");
}

#[test]
fn multiple_matches_errors_with_count() {
    let msg = err(FILE, &[e("println!(\"hello\");", "dbg!(1);")]);
    assert!(msg.contains("Found 2 occurrences"), "msg: {msg}");
    assert!(msg.contains("must be unique"), "msg: {msg}");
}

#[test]
fn empty_old_text_errors() {
    let msg = err(FILE, &[e("", "x")]);
    assert!(msg.contains("oldText must not be empty"), "msg: {msg}");
}

#[test]
fn overlapping_edits_error() {
    let msg = err(FILE, &[e("let x = 1;", "let x = 9;"), e("x = 1", "x = 8")]);
    assert!(msg.contains("overlap"), "msg: {msg}");
}

#[test]
fn no_op_errors() {
    let msg = err(FILE, &[e("let x = 1;", "let x = 1;")]);
    assert!(msg.contains("No changes made"), "msg: {msg}");
}

#[test]
fn multiple_disjoint_edits_all_match_original() {
    let applied = ok(
        FILE,
        &[
            e(
                "println!(\"hello\");\n    let x = 1;",
                "println!(\"hi\");\n    let x = 1;",
            ),
            e("println!(\"hello\");\n}", "println!(\"bye\");\n}"),
        ],
    );
    assert!(applied.new_content.contains("println!(\"hi\");"));
    assert!(applied.new_content.contains("println!(\"bye\");"));
    assert!(!applied.new_content.contains("println!(\"hello\");"));
    assert_eq!(applied.first_changed_line, Some(2));
}

#[test]
fn crlf_line_endings_preserved() {
    let content = "line1\r\nlet x = 1;\r\nline3\r\n";
    let applied = ok(content, &[e("let x = 1;", "let y = 2;")]);
    assert!(applied.new_content.contains("line1\r\nlet y = 2;\r\nline3\r\n"));
    assert!(!applied.new_content.contains("line1\n"));
}

#[test]
fn bom_stripped_and_restored() {
    let content = "\u{feff}fn main() {\n    let x = 1;\n}\n";
    let applied = ok(content, &[e("let x = 1;", "let y = 2;")]);
    assert!(applied.new_content.starts_with('\u{feff}'));
    assert!(applied.new_content.contains("let y = 2;"));
}

#[test]
fn fuzzy_matches_trailing_whitespace_in_old_text() {
    let applied = ok(FILE, &[e("let x = 1;   ", "let y = 9;")]);
    assert!(applied.new_content.contains("let y = 9;"));
    assert_eq!(applied.first_changed_line, Some(3));
}

#[test]
fn fuzzy_preserves_untouched_lines_original_bytes() {
    let content = "line1   \nlet x = 1;\nline3\n";
    let applied = ok(content, &[e("let x = 1;   ", "let y = 2;")]);
    assert!(applied.new_content.starts_with("line1   \n"), "got: {:?}", applied.new_content);
    assert!(applied.new_content.contains("let y = 2;"), "got: {:?}", applied.new_content);
    assert!(applied.new_content.ends_with("line3\n"), "got: {:?}", applied.new_content);
}

#[test]
fn fuzzy_unique_count_uses_normalized_space() {
    let content = "a   \nb   \na   \nlet x = 1;\n";
    let msg = err(content, &[e("a", "z")]);
    assert!(msg.contains("Found 2 occurrences"), "msg: {msg}");
}

#[test]
fn smart_quotes_are_not_folded_by_lightweight_fuzzy() {
    let content = "println!(\"hello\");\n";
    let msg = err(content, &[e("println!(\u{201c}hello\u{201d});", "println!(\"HI\");")]);
    assert!(msg.contains("Could not find"), "msg: {msg}");
}

#[test]
fn diff_shows_removed_and_added_lines() {
    let applied = ok(FILE, &[e("let x = 1;", "let y = 2;")]);
    assert!(applied.diff.contains("-3   |     let x = 1;"), "diff:\n{}", applied.diff);
    assert!(applied.diff.contains("+3   |     let y = 2;"), "diff:\n{}", applied.diff);
}

#[test]
fn reports_replaced_block_count() {
    let content = "a\nb\nc\n";
    let applied = ok(content, &[e("a", "x"), e("c", "y")]);
    assert_eq!(applied.replaced_blocks, 2);
    let single = ok(content, &[e("a", "x")]);
    assert_eq!(single.replaced_blocks, 1);
}

#[test]
fn fuzzy_match_ending_in_newline_preserves_later_trailing_whitespace() {
    let content = "let a = 1;   \nlet b = 2;\nkeep   \n";
    let applied = ok(content, &[e("let a = 1;   ", "let a = 1;"), e("let b = 2;\n", "let b = 2;\n")]);
    assert_eq!(applied.new_content, "let a = 1;\nlet b = 2;\nkeep   \n");
}

#[test]
fn pure_deletion_reports_first_changed_line() {
    let content = "a\nb\nc\n";
    let applied = ok(content, &[e("b\n", "")]);
    assert_eq!(applied.new_content, "a\nc\n");
    assert_eq!(applied.first_changed_line, Some(2));
}

#[test]
fn no_edits_is_an_error() {
    let msg = err(FILE, &[]);
    assert_eq!(msg, "edit tool input is invalid. edits must contain at least one replacement.");
}

#[test]
fn bom_survives_a_crlf_edit() {
    let content = "\u{feff}a\r\nb\r\n";
    let applied = ok(content, &[e("b", "c")]);
    assert_eq!(applied.new_content, "\u{feff}a\r\nc\r\n");
}

#[test]
fn ordinary_requests_are_accepted_by_the_underflow_check() {
    assert!(!edits_would_underflow(FILE, &[e("let x = 1;", "let x = 2;")], "f.rs"));
    assert!(!edits_would_underflow(FILE, &[], "f.rs"));
    assert!(!edits_would_underflow(FILE, &[e("", "x")], "f.rs"));
    assert!(!edits_would_underflow("a  \nb\n", &[e("a\nb", "c")], "f.rs"));
}
