use slimcode::commands::{commands, find, suggest};
use std::collections::HashSet;

#[test]
fn suggest_bare_slash_returns_all() {
    let all = suggest("/");
    assert_eq!(all.len(), commands().len());
}

#[test]
fn suggest_prefix_matches_name() {
    let got = suggest("/hist");
    let names: Vec<_> = got.iter().map(|c| c.name).collect();
    assert_eq!(names, vec!["/history"]);
}

#[test]
fn suggest_prefix_matches_alias() {
    let got = suggest("/res");
    let names: Vec<_> = got.iter().map(|c| c.name).collect();
    assert_eq!(names, vec!["/load"]);
}

#[test]
fn suggest_exact_spelling() {
    let got = suggest("/usage");
    let names: Vec<_> = got.iter().map(|c| c.name).collect();
    assert_eq!(names, vec!["/usage"]);
}

#[test]
fn suggest_case_sensitive() {
    assert!(suggest("/HIST").is_empty());
}

#[test]
fn suggest_non_slash_input_is_empty() {
    assert!(suggest("hist").is_empty());
    assert!(suggest("").is_empty());
}

#[test]
fn suggest_unknown_is_empty() {
    assert!(suggest("/zzz").is_empty());
}

#[test]
fn suggest_trims_surrounding_whitespace() {
    let got = suggest("  /hist  ");
    let names: Vec<_> = got.iter().map(|c| c.name).collect();
    assert_eq!(names, vec!["/history"]);
}

#[test]
fn suggest_numbered_replay_with_digits() {
    let got = suggest("/!3");
    let names: Vec<_> = got.iter().map(|c| c.name).collect();
    assert_eq!(names, vec!["/!"]);
}

#[test]
fn suggest_numbered_replay_bare_prefix() {
    let got = suggest("/!");
    let usages: Vec<_> = got.iter().map(|c| c.usage).collect();
    assert!(usages.contains(&"/!N"), "got: {usages:?}");
    assert!(usages.contains(&"/!!"), "got: {usages:?}");
}

#[test]
fn suggest_numbered_replay_rejects_non_digits() {
    assert!(suggest("/!abc").is_empty());
    assert!(suggest("/!").iter().all(|c| c.name == "/!" || c.name == "/!!"));
}

#[test]
fn find_resolves_name_and_alias() {
    assert_eq!(find("/load").map(|c| c.name), Some("/load"));
    assert_eq!(find("/resume").map(|c| c.name), Some("/load"));
    assert_eq!(find("/quit").map(|c| c.name), Some("/exit"));
    assert!(find("/nope").is_none());
}

#[test]
fn find_trims_and_is_case_sensitive() {
    assert_eq!(find(" /help ").map(|c| c.name), Some("/help"));
    assert!(find("/HELP").is_none());
}

#[test]
fn registry_names_are_unique() {
    let mut seen = HashSet::new();
    for c in commands() {
        for spelling in c.spellings() {
            assert!(seen.insert(spelling), "duplicate spelling: {spelling}");
        }
    }
}

#[test]
fn usage_lines_cover_all_commands() {
    for c in commands() {
        assert!(c.usage.starts_with('/'), "bad usage: {}", c.usage);
        assert!(!c.description.is_empty(), "no description for {}", c.name);
    }
}

#[test]
fn registry_has_eleven_commands_in_display_order() {
    let names: Vec<_> = commands().iter().map(|c| c.name).collect();
    assert_eq!(
        names,
        vec!["/help", "/new", "/load", "/sessions", "/usage", "/history", "/skills", "/install-skill", "/!!", "/!", "/exit"]
    );
}
