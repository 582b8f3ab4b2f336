use slimcode::cli::tui::{help_lines, message_count, parse_replay_index, route_command, CommandRoute};
use slimcode::commands::commands;

#[test]
fn message_count_is_singular_for_one() {
    assert_eq!(message_count(0), "0 msgs");
    assert_eq!(message_count(1), "1 msg");
    assert_eq!(message_count(12), "12 msgs");
}

#[test]
fn parse_replay_index_needs_digits_and_at_least_one() {
    assert_eq!(parse_replay_index("/!3"), Some(3));
    assert_eq!(parse_replay_index("/!12"), Some(12));
    assert_eq!(parse_replay_index("/!0"), None);
    assert_eq!(parse_replay_index("/!"), None);
    assert_eq!(parse_replay_index("/!+3"), None);
    assert_eq!(parse_replay_index("/!x"), None);
    assert_eq!(parse_replay_index("!3"), None);
}

#[test]
fn commands_route_to_their_actions() {
    assert_eq!(route_command("/help", None), CommandRoute::Help);
    assert_eq!(route_command("/new", None), CommandRoute::NewSession);
    assert_eq!(route_command("/quit", None), CommandRoute::Quit);
    assert_eq!(route_command("/!!", None), CommandRoute::Replay(1));
    assert_eq!(route_command("/!", None), CommandRoute::ReplayNeedsNumber);
    assert_eq!(route_command("/!", Some("/!2")), CommandRoute::Replay(2));
    assert_eq!(route_command("/!4", None), CommandRoute::Replay(4));
    assert_eq!(route_command("/deploy", None), CommandRoute::Other);
    assert_eq!(route_command("/install-skill", Some("x")), CommandRoute::InstallSkill);
}

#[test]
fn help_lists_every_command() {
    let lines = help_lines();
    assert_eq!(lines[0], "commands:");
    assert!(lines.iter().any(|l| l.contains("/session")), "{lines:?}");
    // The listing is the command registry, which keeps `/load` and
    // `/sessions` (the registry's own tests resolve `/load` and `/resume`),
    // so they are listed too.
    assert!(lines.iter().any(|l| l.contains("Shift+Enter")), "{lines:?}");
}

#[test]
fn help_lines_follow_the_registry() {
    let lines = help_lines();
    assert_eq!(lines.len(), commands().len() + 3);
    assert!(lines.iter().any(|l| l.contains("/load <id>") && l.contains("(alias: /resume)")), "{lines:?}");
    let width = commands().iter().map(|c| c.usage.chars().count()).max().unwrap();
    assert_eq!(lines[1], format!("  {:<width$}  {}", "/help", "list commands"));
}
