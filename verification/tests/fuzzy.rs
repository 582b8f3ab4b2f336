use slimcode::commands::fuzzy::fuzzy_match;

fn score(query: &str, text: &str) -> i64 {
    fuzzy_match(query, text).expect("query should match text")
}

#[test]
fn empty_query_matches_anything_with_zero() {
    assert_eq!(fuzzy_match("", "anything"), Some(0));
    assert_eq!(fuzzy_match("", ""), Some(0));
}

#[test]
fn empty_text_only_matches_empty_query() {
    assert_eq!(fuzzy_match("", ""), Some(0));
    assert_eq!(fuzzy_match("a", ""), None);
}

#[test]
fn exact_equality_matches() {
    assert!(fuzzy_match("save", "save").is_some());
    assert_eq!(score("save", "save"), score("save", "save"));
}

#[test]
fn non_subsequence_is_none() {
    assert_eq!(fuzzy_match("abc", "ac"), None);
    assert_eq!(fuzzy_match("zz", "z"), None);
    assert_eq!(fuzzy_match("xy", "yx"), None);
}

#[test]
fn subsequence_matches() {
    assert!(fuzzy_match("sv", "save").is_some());
    assert!(fuzzy_match("install", "install-skill").is_some());
    assert!(fuzzy_match("ist", "install-skill").is_some());
    assert!(fuzzy_match("sk", "skills").is_some());
}

#[test]
fn case_sensitive() {
    assert_eq!(fuzzy_match("SAVE", "save"), None);
    assert_eq!(fuzzy_match("save", "SAVE"), None);
}

#[test]
fn contiguous_run_is_better_than_gapped() {
    let contiguous = score("sv", "save");
    let gapped = score("sv", "sessions-and-validate");
    assert!(contiguous < gapped, "{contiguous} < {gapped}");
}

#[test]
fn exact_is_best() {
    let exact = score("save", "save");
    let gappy = score("save", "sessions-are-validated-everywhere");
    assert!(exact < gappy, "{exact} < {gappy}");
}

#[test]
fn word_boundary_bonus_beats_midword() {
    let boundary = score("sk", "skills");
    let midword = score("sk", "ask");
    assert!(boundary < midword, "{boundary} < {midword}");
}

#[test]
fn position_penalty_prefers_early_matches() {
    let early = score("hl", "helloworld");
    let late = score("hl", "zzhelloworld");
    assert!(early < late, "{early} < {late}");
}

#[test]
fn longer_gap_is_worse() {
    let small_gap = score("sv", "sav");
    let large_gap = score("sv", "s----------v");
    assert!(small_gap < large_gap, "{small_gap} < {large_gap}");
}

#[test]
fn exact_scores_are_exact_values() {
    // "save" == "save": the exact bonus.
    assert_eq!(fuzzy_match("save", "save"), Some(-1000));
    // "sk" in "skills": s at 0 (boundary, -100, +0), k at 1 (run of 2: -50, +1).
    assert_eq!(fuzzy_match("sk", "skills"), Some(-149));
    // "sv" in "save": s at 0 (-100), v at 2 (gap 1: +20, +2).
    assert_eq!(fuzzy_match("sv", "save"), Some(-78));
}

#[test]
fn fuzzy_match_scores_a_long_text() {
    let text = format!("{}z", "a".repeat(100_000));
    assert_eq!(fuzzy_match("z", &text), Some(20 * 100_000 + 100_000));
}
