use slimcode::agent::session::{Message, Role};
use slimcode::cli::repl::{
    accumulate, classify, is_continuation, messages_for_prompt, parse_replay, render_history, resolve_replay_index,
    strip_continuation, summarize_entry, Input, SYSTEM_PROMPT,
};

#[test]
fn classify_distinguishes_kinds() {
    assert_eq!(classify("   "), Input::Empty);
    assert_eq!(classify(""), Input::Empty);
    assert_eq!(classify("/exit"), Input::Command("/exit".to_string()));
    assert_eq!(classify("  /help  "), Input::Command("/help".to_string()));
    assert_eq!(classify("hello"), Input::Prompt("hello".to_string()));
    assert_eq!(classify("  hi there  "), Input::Prompt("hi there".to_string()));
}

#[test]
fn fresh_prompt_seeds_system_message() {
    let messages = messages_for_prompt(Vec::new(), "hello");
    assert_eq!(messages.len(), 2);
    assert_eq!(messages[0].role, Role::System);
    assert_eq!(messages[0].text_content(), SYSTEM_PROMPT);
    assert_eq!(messages[1].role, Role::User);
    assert_eq!(messages[1].text_content(), "hello");
}

#[test]
fn continued_prompt_does_not_reseed_system() {
    let history = vec![Message::text(Role::System, SYSTEM_PROMPT)];
    let messages = messages_for_prompt(history, "again");
    assert_eq!(messages.len(), 2);
    assert_eq!(messages[0].role, Role::System);
    assert_eq!(messages[1].text_content(), "again");
}

#[test]
fn is_continuation_detects_trailing_backslash() {
    assert!(is_continuation("foo \\"));
    assert!(is_continuation("foo \\  "));
    assert!(is_continuation("\\"));
    assert!(!is_continuation("foo"));
    assert!(!is_continuation(""));
    assert!(!is_continuation("   "));
}

#[test]
fn strip_continuation_removes_marker() {
    assert_eq!(strip_continuation("foo \\"), "foo");
    assert_eq!(strip_continuation("foo \\  "), "foo");
    assert_eq!(strip_continuation("\\"), "");
}

#[test]
fn accumulate_builds_multiline_prompt() {
    let mut pending = String::new();
    assert_eq!(accumulate(&mut pending, "fn main() { \\"), None);
    assert_eq!(pending, "fn main() {".to_string());
    assert_eq!(accumulate(&mut pending, "    ok(); \\"), None);
    assert_eq!(pending, "fn main() {\n    ok();".to_string());
    assert_eq!(accumulate(&mut pending, "}"), Some("fn main() {\n    ok();\n}".to_string()));
    assert!(pending.is_empty());
}

#[test]
fn accumulate_preserves_leading_whitespace() {
    let mut pending = String::new();
    assert_eq!(accumulate(&mut pending, "    fn main() { \\"), None);
    assert_eq!(pending, "    fn main() {".to_string());
    assert_eq!(accumulate(&mut pending, "}"), Some("    fn main() {\n}".to_string()));
}

#[test]
fn accumulate_treats_slash_line_as_content() {
    let mut pending = String::new();
    assert_eq!(accumulate(&mut pending, "write a file \\"), None);
    assert_eq!(accumulate(&mut pending, "/tmp/x"), Some("write a file\n/tmp/x".to_string()));
}

#[test]
fn accumulate_single_line_prompt_commits_immediately() {
    let mut pending = String::new();
    assert_eq!(accumulate(&mut pending, "hello"), Some("hello".to_string()));
    assert!(pending.is_empty());
}

#[test]
fn accumulate_blank_line_commits_prompt() {
    let mut pending = String::new();
    assert_eq!(accumulate(&mut pending, "a \\"), None);
    assert_eq!(accumulate(&mut pending, ""), Some("a".to_string()));
}

#[test]
fn parse_replay_handles_bang_commands() {
    assert_eq!(parse_replay("!!"), Ok(1));
    assert_eq!(parse_replay("!3"), Ok(3));
    assert!(parse_replay("!").is_err());
    assert!(parse_replay("!abc").is_err());
    assert!(parse_replay("!0").is_ok());
}

#[test]
fn parse_replay_error_messages_quote_the_argument() {
    assert_eq!(parse_replay("x"), Err("unknown replay: \"x\"".to_string()));
    assert_eq!(parse_replay("!y"), Err("bad replay index: \"!y\"".to_string()));
    assert_eq!(parse_replay(" !+7 "), Ok(7));
    assert!(parse_replay("!99999999999999999999999").is_err());
}

#[test]
fn resolve_replay_index_newest_first() {
    let entries = vec!["one".to_string(), "two".to_string(), "three".to_string()];
    assert_eq!(resolve_replay_index(&entries, 1), Some("three"));
    assert_eq!(resolve_replay_index(&entries, 3), Some("one"));
    assert_eq!(resolve_replay_index(&entries, 4), None);
    assert_eq!(resolve_replay_index(&entries, 0), None);
}

#[test]
fn render_history_newest_first_numbered() {
    let entries = vec!["one".to_string(), "two".to_string(), "three".to_string()];
    assert_eq!(render_history(&entries, 20), vec!["3: one", "2: two", "1: three"]);
}

#[test]
fn render_history_respects_display_limit() {
    let entries: Vec<String> = (0..30).map(|i| format!("p{i}")).collect();
    let lines = render_history(&entries, 20);
    assert_eq!(lines.len(), 20);
    assert_eq!(lines.first().unwrap(), "20: p10");
    assert_eq!(lines.last().unwrap(), "1: p29");
}

#[test]
fn render_history_collapses_multiline_and_long() {
    let entries = vec!["first line\nsecond line".to_string()];
    assert_eq!(render_history(&entries, 20), vec!["1: first line…"]);
    let long = vec!["x".repeat(80)];
    let lines = render_history(&long, 20);
    assert!(lines[0].starts_with("1: "), "got: {lines:?}");
    assert!(lines[0].ends_with('…'), "got: {lines:?}");
    assert!(lines[0].chars().count() <= 60, "got: {lines:?}");
}

#[test]
fn summarize_entry_marks_empty_and_multiline_entries() {
    assert_eq!(summarize_entry(""), "…");
    assert_eq!(summarize_entry("one"), "one");
    assert_eq!(summarize_entry("one  \n"), "one");
    assert_eq!(summarize_entry("a\r\nb"), "a…");
}

use slimcode::app::session::SessionStore;
use slimcode::cli::repl::{new_session, repl_step, ReplAction};

fn step(pending: &mut String, line: &str) -> ReplAction {
    repl_step(pending, line)
}

#[test]
fn repl_step_routes_commands_and_prompts() {
    let mut p = String::new();
    assert!(matches!(step(&mut p, "\n"), ReplAction::Wait));
    assert!(matches!(step(&mut p, "  fix the bug \n"), ReplAction::Submit(s) if s == "fix the bug"));
    assert!(matches!(step(&mut p, "/help\n"), ReplAction::Help));
    assert!(matches!(step(&mut p, "/quit"), ReplAction::Exit));
    assert!(matches!(step(&mut p, "/exit"), ReplAction::Exit));
    assert!(matches!(step(&mut p, "/new"), ReplAction::NewSession));
    assert!(matches!(step(&mut p, "/sessions"), ReplAction::ListSessions));
    assert!(matches!(step(&mut p, "/usage"), ReplAction::Usage));
    assert!(matches!(step(&mut p, "/save"), ReplAction::Save));
    assert!(matches!(step(&mut p, "/history"), ReplAction::History));
    assert!(matches!(step(&mut p, "/load  abc-1 \n"), ReplAction::Load(id) if id == "abc-1"));
    assert!(matches!(step(&mut p, "/resume x"), ReplAction::Load(id) if id == "x"));
    assert!(matches!(step(&mut p, "/load"), ReplAction::Fail(e) if e == "/load needs a session id"));
    assert!(matches!(step(&mut p, "/resume   "), ReplAction::Fail(e) if e == "/resume needs a session id"));
    assert!(p.is_empty());
}

#[test]
fn repl_step_replays_and_reports_bad_indexes() {
    let mut p = String::new();
    assert!(matches!(step(&mut p, "/!!"), ReplAction::Replay(1)));
    assert!(matches!(step(&mut p, "/!3"), ReplAction::Replay(3)));
    assert!(matches!(step(&mut p, "/!x"), ReplAction::Report(e) if e == "bad replay index: \"!x\""));
}

#[test]
fn repl_step_predicts_unknown_commands() {
    let mut p = String::new();
    match step(&mut p, "/his") {
        ReplAction::Unknown { name, suggestions } => {
            assert_eq!(name, "/his");
            let usages: Vec<&str> = suggestions.iter().map(|c| c.usage).collect();
            assert_eq!(usages, vec!["/history"]);
        }
        other => panic!("unexpected {other:?}"),
    }
    match step(&mut p, "/zzz") {
        ReplAction::Unknown { suggestions, .. } => assert!(suggestions.is_empty()),
        other => panic!("unexpected {other:?}"),
    }
}

#[test]
fn repl_step_collects_a_multi_line_prompt() {
    let mut p = String::new();
    assert!(matches!(step(&mut p, "first line \\\n"), ReplAction::Wait));
    assert_eq!(p, "first line");
    assert!(matches!(step(&mut p, "/not a command \\\n"), ReplAction::Wait));
    assert!(matches!(step(&mut p, "last\n"), ReplAction::Submit(s) if s == "first line\n/not a command\nlast"));
    assert!(p.is_empty());
}

#[test]
fn new_session_has_fresh_id_and_empty_messages() {
    let store = SessionStore::new("/tmp/sessions", "proj-a", "/tmp/home");
    let a = new_session(&store, 86_400, 42);
    let b = new_session(&store, 86_400, 42);
    assert_ne!(a.id, b.id);
    assert!(a.id.starts_with("slimcode-86400-42-"));
    assert_eq!(a.created_at, "1970-01-02T00:00:00Z");
    assert!(a.messages.is_empty());
    assert!(a.title.is_none());
}

#[test]
fn new_id_is_unique_and_prefixed() {
    let s = SessionStore::new("/tmp/sessions", "proj-test", "/tmp/home");
    let a = s.new_id(1, 2);
    let b = s.new_id(1, 2);
    assert_ne!(a, b);
    assert!(a.starts_with("slimcode-"));
    assert_eq!(a, "slimcode-1-2-0");
    assert_eq!(b, "slimcode-1-2-1");
}

#[test]
fn a_blank_line_submits_a_pending_prompt() {
    let mut p = String::new();
    assert!(matches!(step(&mut p, "draft \\\n"), ReplAction::Wait));
    assert!(matches!(step(&mut p, "   \n"), ReplAction::Submit(s) if s == "draft"));
    assert!(p.is_empty());
}

use slimcode::cli::repl::repl_help_lines;

#[test]
fn help_lists_registered_commands() {
    let s = repl_help_lines().join("\n");
    assert!(s.contains("list commands"), "got: {s}");
    assert!(s.contains("/load <id>"), "got: {s}");
    assert!(s.contains("load a saved session"), "got: {s}");
    assert!(s.contains("alias: /resume"), "got: {s}");
    assert!(s.contains("alias: /quit"), "got: {s}");
    let lines = repl_help_lines();
    assert_eq!(lines[0], "commands:");
    assert_eq!(lines.last().unwrap(), "multi-line: end a line with \\ to continue; a blank line submits");
    assert!(lines.iter().any(|l| l.ends_with("load a saved session (alias: /resume)")));
}

/// The lines the program prints for an unknown command.
fn unknown_notice(action: ReplAction) -> String {
    match action {
        ReplAction::Unknown { name, suggestions } => {
            let usages: Vec<&str> = suggestions.iter().map(|c| c.usage).collect();
            if usages.is_empty() {
                format!("unknown command: {name}\n  run /help to list commands")
            } else {
                format!("unknown command: {name}\n  did you mean: {}", usages.join(", "))
            }
        }
        other => panic!("expected an unknown command, got {other:?}"),
    }
}

#[test]
fn replay_malformed_input_errors_and_continues() {
    let mut p = String::new();
    let mut reports = 0;
    for line in ["/!abc\n", "/!\n"] {
        match step(&mut p, line) {
            ReplAction::Report(e) => {
                assert!(e.contains("bad replay index"), "got: {e}");
                reports += 1;
            }
            other => panic!("unexpected {other:?}"),
        }
    }
    assert_eq!(reports, 2);
    assert!(matches!(step(&mut p, "/exit\n"), ReplAction::Exit));
}

#[test]
fn empty_input_line_is_ignored() {
    let mut p = String::new();
    assert!(matches!(step(&mut p, "\n"), ReplAction::Wait));
    assert!(matches!(step(&mut p, "  \n"), ReplAction::Wait));
    assert!(matches!(step(&mut p, "/exit\n"), ReplAction::Exit));
}

#[test]
fn load_without_id_errors() {
    let mut p = String::new();
    match step(&mut p, "/load\n") {
        ReplAction::Fail(err) => assert!(err.contains("session id"), "err: {err}"),
        other => panic!("unexpected {other:?}"),
    }
}

#[test]
fn unknown_command_suggests_candidates() {
    let mut p = String::new();
    let s = unknown_notice(step(&mut p, "/his\n"));
    assert!(s.contains("unknown command: /his"), "got: {s}");
    assert!(s.contains("did you mean: /history"), "got: {s}");
}

#[test]
fn unknown_command_no_match_hints_help() {
    let mut p = String::new();
    let s = unknown_notice(step(&mut p, "/zzz\n"));
    assert!(s.contains("unknown command: /zzz"), "got: {s}");
    assert!(s.contains("run /help to list commands"), "got: {s}");
}

#[test]
fn bare_slash_suggests_every_command() {
    let mut p = String::new();
    let s = unknown_notice(step(&mut p, "/\n"));
    assert!(s.contains("did you mean: /help"), "got: {s}");
    assert!(s.contains("/load <id>"), "got: {s}");
    assert!(s.contains("/!N"), "got: {s}");
}
