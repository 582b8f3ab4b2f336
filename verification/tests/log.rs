use slimcode::agent::session::{Message, Role, Session};
use slimcode::ai::message::MessageStopReason;
use slimcode::app::log::{AppendPlan, LogRecord, append_plan, append_title_plan};
use slimcode::app::replay::{Record, check_header_kind, seal_records};
use slimcode::cli::tui::{TurnOutcome, turn_close};

fn session(messages: Vec<Message>, title: Option<&str>) -> Session {
    Session {
        id: "slimcode-1".to_string(),
        created_at: "2026-08-29T00:00:00Z".to_string(),
        messages,
        title: title.map(str::to_string),
    }
}

fn message_of(r: &LogRecord) -> (&Message, Option<MessageStopReason>, Option<&str>) {
    match r {
        LogRecord::Message { message, stop_reason, error } => (message, *stop_reason, error.as_deref()),
        LogRecord::Title(t) => panic!("expected a message record, got title {t}"),
    }
}

#[test]
fn append_before_first_assistant_writes_nothing() {
    let user = Message::text(Role::User, "hello");
    let s = session(vec![user.clone()], None);
    assert!(matches!(append_plan(false, &s, &user, None), AppendPlan::Skip));
}

#[test]
fn first_assistant_message_creates_the_log_with_title_and_backlog() {
    let user = Message::text(Role::User, "hello");
    let reply = Message::text(Role::Assistant, "first reply");
    let s = session(vec![user.clone(), reply.clone()], Some("greeting"));
    let AppendPlan::Create(records) = append_plan(false, &s, &reply, None) else { panic!("expected creation") };
    assert_eq!(records.len(), 3);
    assert!(matches!(&records[0], LogRecord::Title(t) if t == "greeting"));
    assert_eq!(message_of(&records[1]), (&user, None, None));
    assert_eq!(message_of(&records[2]), (&reply, None, None));
}

#[test]
fn after_creation_one_record_per_message() {
    let user = Message::text(Role::User, "again");
    let s = session(vec![user.clone()], None);
    let AppendPlan::AppendOne(r) = append_plan(true, &s, &user, None) else { panic!("expected one record") };
    assert_eq!(message_of(&r), (&user, None, None));
}

#[test]
fn a_closing_message_carries_its_envelope_on_the_last_record() {
    let user = Message::text(Role::User, "do it");
    let closing = Message::text(Role::Assistant, "The turn ended with an error: boom");
    let s = session(vec![user.clone(), closing.clone()], None);
    let plan = append_plan(false, &s, &closing, Some((MessageStopReason::Error, Some("boom".to_string()))));
    let AppendPlan::Create(records) = plan else { panic!("expected creation") };
    assert_eq!(records.len(), 2);
    assert_eq!(message_of(&records[0]), (&user, None, None));
    assert_eq!(message_of(&records[1]), (&closing, Some(MessageStopReason::Error), Some("boom")));
    let AppendPlan::AppendOne(r) = append_plan(true, &s, &closing, Some((MessageStopReason::Aborted, None))) else {
        panic!("expected one record")
    };
    assert_eq!(message_of(&r), (&closing, Some(MessageStopReason::Aborted), None));
}

#[test]
fn append_title_needs_an_existing_log() {
    assert!(matches!(append_title_plan(true, "/s/p/x.jsonl", "t"), Ok(LogRecord::Title(t)) if t == "t"));
    let err = append_title_plan(false, "/s/p/x.jsonl", "t").unwrap_err();
    assert_eq!(err, "/s/p/x.jsonl: no session log to append a title to");
}

#[test]
fn turn_close_closes_failed_and_cancelled_turns() {
    assert!(turn_close(&TurnOutcome::Completed, 3, true).is_none());
    let c = turn_close(&TurnOutcome::Failed("boom".to_string()), 2, false).unwrap();
    assert_eq!(c.message, Message::text(Role::Assistant, "The turn ended with an error: boom"));
    assert_eq!(c.stop_reason, MessageStopReason::Error);
    assert_eq!(c.error.as_deref(), Some("boom"));
    let c = turn_close(&TurnOutcome::Cancelled, 0, true).unwrap();
    assert_eq!(c.message, Message::text(Role::Assistant, "The turn was cancelled."));
    assert_eq!(c.stop_reason, MessageStopReason::Aborted);
    assert_eq!(c.error, None);
}

#[test]
fn a_first_turn_that_dies_before_anything_closes_nothing() {
    assert!(turn_close(&TurnOutcome::Failed("boom".to_string()), 0, false).is_none());
    assert!(turn_close(&TurnOutcome::Cancelled, 0, false).is_none());
}

#[test]
fn seal_records_drops_only_a_torn_unreadable_tail() {
    let torn = vec![Record::Title("t".to_string()), Record::Malformed];
    let sealed = seal_records(torn, false);
    assert_eq!(sealed.len(), 1);
    let whole = vec![Record::Title("t".to_string()), Record::Malformed];
    assert_eq!(seal_records(whole, true).len(), 2);
    let readable = vec![Record::Malformed, Record::Title("t".to_string())];
    assert_eq!(seal_records(readable, false).len(), 2);
    assert!(seal_records(Vec::new(), false).is_empty());
}

#[test]
fn check_header_kind_refuses_other_logs() {
    assert!(check_header_kind("/p.jsonl", "session").is_ok());
    assert_eq!(
        check_header_kind("/p.jsonl", "other").unwrap_err(),
        "/p.jsonl: not a session log (header type \"other\")"
    );
}

fn closing_record(s: &mut Session, c: slimcode::cli::tui::Closing, log_exists: bool) -> AppendPlan {
    s.messages.push(c.message.clone());
    append_plan(log_exists, s, &c.message, Some((c.stop_reason, c.error)))
}

#[test]
fn failed_turn_closes_the_log_and_returns_err() {
    // The turn asked for a probe (the log was created by that assistant
    // message) and then failed with "boom".
    let mut probe = Message::text(Role::Assistant, "");
    probe.tool_calls.push(slimcode::agent::session::ToolCall {
        id: "call_1".to_string(),
        name: "probe".to_string(),
        arguments: "{}".to_string(),
    });
    let user = Message::text(Role::User, "do it");
    let mut s = session(vec![user.clone(), probe.clone()], None);
    assert!(matches!(append_plan(false, &s, &user, None), AppendPlan::Skip));
    assert!(matches!(append_plan(false, &s, &probe, None), AppendPlan::Create(_)));
    let c = turn_close(&TurnOutcome::Failed("boom".to_string()), 1, false).expect("closing message");
    let AppendPlan::AppendOne(r) = closing_record(&mut s, c, true) else { panic!("log written") };
    let (m, reason, error) = message_of(&r);
    assert_eq!(m.role, Role::Assistant);
    assert_eq!(m.text_content(), "The turn ended with an error: boom");
    assert_eq!(reason, Some(MessageStopReason::Error));
    assert_eq!(error, Some("boom"));
}

#[test]
fn a_turn_that_dies_on_an_existing_log_still_closes_it() {
    let mut s = session(
        vec![Message::text(Role::User, "one"), Message::text(Role::Assistant, "first"), Message::text(Role::User, "two")],
        None,
    );
    let c = turn_close(&TurnOutcome::Failed("boom".to_string()), 0, true).expect("closing message");
    let AppendPlan::AppendOne(r) = closing_record(&mut s, c, true) else { panic!("log loads") };
    assert_eq!(message_of(&r).0.text_content(), "The turn ended with an error: boom");
}

#[test]
fn a_first_turn_that_dies_leaves_no_log() {
    let s = session(vec![Message::text(Role::User, "only")], None);
    assert!(matches!(append_plan(false, &s, &s.messages[0], None), AppendPlan::Skip));
    assert!(turn_close(&TurnOutcome::Failed("the provider fails".to_string()), 0, false).is_none());
}

#[test]
fn a_created_log_reads_back_to_the_session() {
    let mut call = Message::text(Role::Assistant, "checking");
    call.tool_calls.push(slimcode::agent::session::ToolCall {
        id: "call_1".to_string(),
        name: "read".to_string(),
        arguments: "{}".to_string(),
    });
    let messages = vec![
        Message::text(Role::User, "hello"),
        call.clone(),
        Message::tool_result("call_1", "body"),
        Message::text(Role::Assistant, "done"),
    ];
    let s = session(messages.clone(), Some("greeting"));
    let AppendPlan::Create(records) = append_plan(false, &s, &messages[3], None) else { panic!("expected creation") };
    let read: Vec<Record> = records
        .into_iter()
        .map(|r| match r {
            LogRecord::Message { message, .. } => Record::Message(message),
            LogRecord::Title(t) => Record::Title(t),
        })
        .collect();
    let replayed = slimcode::app::replay::replay_records(read);
    assert_eq!(replayed.messages, messages);
    assert_eq!(replayed.title.as_deref(), Some("greeting"));
    assert_eq!(replayed.skipped_records, 0);
    assert_eq!(replayed.repaired_tool_calls, 0);
}

#[test]
fn a_log_that_grew_with_the_session_reads_back_to_it() {
    let user = Message::text(Role::User, "hello");
    let reply = Message::text(Role::Assistant, "first reply");
    let again = Message::text(Role::User, "again");
    let closing = Message::text(Role::Assistant, "The turn was cancelled.");
    let mut s = session(vec![user.clone()], None);
    let mut read: Vec<Record> = Vec::new();
    let steps = vec![
        (user.clone(), None),
        (reply.clone(), None),
        (again.clone(), None),
        (closing.clone(), Some((MessageStopReason::Aborted, None))),
    ];
    let mut exists = false;
    s.messages.clear();
    for (m, envelope) in steps {
        s.messages.push(m.clone());
        let records = match append_plan(exists, &s, &m, envelope) {
            AppendPlan::Skip => Vec::new(),
            AppendPlan::Create(rs) => {
                exists = true;
                rs
            }
            AppendPlan::AppendOne(r) => vec![r],
        };
        for r in records {
            read.push(match r {
                LogRecord::Message { message, .. } => Record::Message(message),
                LogRecord::Title(t) => Record::Title(t),
            });
        }
    }
    let replayed = slimcode::app::replay::replay_records(read);
    assert_eq!(replayed.messages, vec![user, reply, again, closing]);
    assert_eq!(replayed.repaired_tool_calls, 0);
}
