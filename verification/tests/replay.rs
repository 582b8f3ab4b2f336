use slimcode::agent::session::{Message, Role, ToolCall};
use slimcode::app::replay::{replay_records, Record};

fn text(role: Role, t: &str) -> Record {
    Record::Message(Message::text(role, t))
}

fn calls(ids: &[&str]) -> Record {
    let mut m = Message::text(Role::Assistant, "");
    for id in ids {
        m.tool_calls.push(ToolCall { id: id.to_string(), name: "read".to_string(), arguments: "{}".to_string() });
    }
    Record::Message(m)
}

fn result(id: &str, body: &str) -> Record {
    Record::Message(Message::tool_result(id, body))
}

#[test]
fn replay_keeps_a_complete_batch_and_the_last_title() {
    let r = replay_records(vec![
        text(Role::User, "hi"),
        Record::Title("first".to_string()),
        calls(&["a", "b"]),
        result("a", "A"),
        result("b", "B"),
        text(Role::Assistant, "done"),
        Record::Title("second".to_string()),
    ]);
    assert_eq!(r.messages.len(), 5);
    assert_eq!(r.title.as_deref(), Some("second"));
    assert_eq!(r.skipped_records, 0);
    assert_eq!(r.repaired_tool_calls, 0);
    assert_eq!(r.messages[4].text_content(), "done");
}

#[test]
fn replay_repairs_dangling_calls_in_request_order() {
    let r = replay_records(vec![calls(&["a", "b", "c"]), result("b", "B"), text(Role::User, "next")]);
    assert_eq!(r.repaired_tool_calls, 2);
    let ids: Vec<_> = r.messages.iter().map(|m| m.tool_call_id.clone()).collect();
    assert_eq!(
        ids,
        vec![None, Some("b".to_string()), Some("a".to_string()), Some("c".to_string()), None]
    );
    assert_eq!(r.messages[2].text_content(), "Error: interrupted");
    assert_eq!(r.messages[2].role, Role::Tool);
    assert_eq!(r.messages[4].role, Role::User);
}

#[test]
fn replay_closes_the_batch_at_the_end_of_the_log() {
    let r = replay_records(vec![text(Role::User, "go"), calls(&["x"])]);
    assert_eq!(r.repaired_tool_calls, 1);
    assert_eq!(r.messages.len(), 3);
    assert_eq!(r.messages[2].tool_call_id.as_deref(), Some("x"));
}

#[test]
fn replay_drops_orphans_system_records_and_counts_malformed_lines() {
    let r = replay_records(vec![
        text(Role::System, "old system prompt"),
        result("ghost", "orphan"),
        Record::Malformed,
        text(Role::User, "hi"),
        calls(&["a"]),
        result("zzz", "not requested"),
        result("a", "A"),
        Record::Malformed,
    ]);
    assert_eq!(r.skipped_records, 2);
    assert_eq!(r.repaired_tool_calls, 0);
    assert_eq!(r.messages.len(), 3);
    assert_eq!(r.messages[0].role, Role::User);
    assert_eq!(r.messages[2].text_content(), "A");
}

#[test]
fn a_new_batch_closes_the_previous_one() {
    let r = replay_records(vec![calls(&["a"]), calls(&["b"]), result("a", "late"), result("b", "B")]);
    assert_eq!(r.repaired_tool_calls, 1);
    let roles: Vec<_> = r.messages.iter().map(|m| m.role).collect();
    assert_eq!(roles, vec![Role::Assistant, Role::Tool, Role::Assistant, Role::Tool]);
    assert_eq!(r.messages[1].text_content(), "Error: interrupted");
    assert_eq!(r.messages[3].text_content(), "B");
}
