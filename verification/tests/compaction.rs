use slimcode::agent::session::{AgentMessage, Message, Role, ToolCall};
use slimcode::ai::config::ProviderConfig;
use slimcode::app::compaction::SUMMARY_MAX_TOKENS;
use slimcode::app::compaction::{
    build_summarization_prompt, compact_finish, compact_plan, estimate_message_tokens, estimate_total_tokens,
    estimated_context_window, format_tool_arguments, keep_recent_tokens, kept_start, serialize_conversation,
    should_compact, summarization_request, truncate_for_summary, SUMMARIZATION_PROMPT, TOOL_RESULT_MAX_CHARS,
    UPDATE_SUMMARIZATION_PROMPT,
};

#[test]
fn context_window_is_the_128k_constant() {
    assert_eq!(estimated_context_window(), 128_000);
    assert_eq!(keep_recent_tokens(), 10_240);
}

fn text_message(chars: usize) -> AgentMessage {
    AgentMessage::text(Role::Assistant, &"x".repeat(chars))
}

#[test]
fn estimates_use_chars_over_four_rounded_up() {
    assert_eq!(estimate_message_tokens(&text_message(0)), 0);
    assert_eq!(estimate_message_tokens(&text_message(4)), 1);
    assert_eq!(estimate_message_tokens(&text_message(5)), 2);
    assert_eq!(estimate_message_tokens(&text_message(40)), 10);
    let mut m = Message::text(Role::Assistant, "");
    m.tool_calls.push(ToolCall { id: "c".to_string(), name: "edit".to_string(), arguments: "{\"path\": \"a.rs\"}".to_string() });
    assert_eq!(estimate_message_tokens(&AgentMessage::llm(m)), (4 + 16 + 3) / 4);
    assert_eq!(estimate_total_tokens(&[text_message(4), text_message(5)]), 3);
}

#[test]
fn kept_start_keeps_the_budget_and_skips_tool_results() {
    let fits = vec![text_message(4), text_message(4)];
    assert_eq!(kept_start(&fits), 0);
    let huge = vec![text_message(4), text_message(50_000)];
    assert_eq!(kept_start(&huge), 2);
    let with_tool = vec![text_message(41_000), AgentMessage::tool_result("c", "r"), text_message(4)];
    assert_eq!(kept_start(&with_tool), 2);
}

#[test]
fn truncate_for_summary_marks_the_cut() {
    assert_eq!(truncate_for_summary("abc", 3), "abc");
    assert_eq!(truncate_for_summary("abcdef", 2), "ab\n\n[... 4 more characters truncated]");
}

#[test]
fn summarization_prompt_wraps_conversation_and_previous_summary() {
    let p = build_summarization_prompt("[User]: hi", None);
    assert_eq!(p, format!("<conversation>\n[User]: hi\n</conversation>\n\n{SUMMARIZATION_PROMPT}"));
    let u = build_summarization_prompt("c", Some("old"));
    assert_eq!(
        u,
        format!("<conversation>\nc\n</conversation>\n\n<previous-summary>\nold\n</previous-summary>\n\n{UPDATE_SUMMARIZATION_PROMPT}")
    );
}

#[test]
fn serialize_conversation_renders_each_role() {
    let mut asst = Message::text(Role::Assistant, "on it");
    asst.tool_calls.push(ToolCall { id: "c1".to_string(), name: "read".to_string(), arguments: "{\"path\":\"a.rs\"}".to_string() });
    let msgs = vec![
        AgentMessage::text(Role::System, "sys"),
        AgentMessage::text(Role::User, "hello"),
        AgentMessage::llm(asst),
        AgentMessage::tool_result("c1", "contents"),
    ];
    assert_eq!(
        serialize_conversation(&msgs),
        "[User]: hello\n\n[Assistant]: on it\n\n[Assistant tool calls]: read(path=\"a.rs\")\n\n[Tool result]: contents"
    );
    assert_eq!(format_tool_arguments("not json"), "not json");
    assert_eq!(format_tool_arguments("{\"b\":1,\"a\":\"x\"}"), "a=\"x\", b=1");
}

#[test]
fn estimate_message_tokens_uses_chars_over_four_rounded_up() {
    assert_eq!(estimate_message_tokens(&text_message(0)), 0);
    assert_eq!(estimate_message_tokens(&text_message(4)), 1);
    assert_eq!(estimate_message_tokens(&text_message(5)), 2);
    assert_eq!(estimate_message_tokens(&text_message(40)), 10);
}

#[test]
fn estimate_message_tokens_counts_tool_call_arguments() {
    let mut llm = Message::text(Role::Assistant, "");
    llm.tool_calls.push(ToolCall {
        id: "call_1".to_string(),
        name: "edit".to_string(),
        arguments: "{\"path\": \"a.rs\"}".to_string(),
    });
    let message = AgentMessage::llm(llm);
    let name_chars = "edit".len();
    let arg_chars = "{\"path\": \"a.rs\"}".len();
    assert_eq!(estimate_message_tokens(&message), (name_chars + arg_chars).div_ceil(4));
}

#[test]
fn estimate_total_tokens_sums_messages() {
    let messages = vec![text_message(4), text_message(8)];
    assert_eq!(estimate_total_tokens(&messages), 3);
    assert_eq!(estimate_total_tokens(&[]), 0);
}

#[test]
fn should_compact_at_the_threshold_boundary() {
    let threshold = estimated_context_window() * 92 / 100;
    let below = vec![text_message((threshold * 91 / 100) * 4)];
    assert!(!should_compact(&below));
    let exact = vec![text_message(threshold * 4)];
    assert_eq!(estimate_total_tokens(&exact), threshold);
    assert!(!should_compact(&exact));
    let full = vec![text_message(estimated_context_window() * 4)];
    assert!(should_compact(&full));
}

#[test]
fn kept_start_never_lands_on_a_tool_result() {
    let huge = 10_250usize * 4;
    let mut assistant = Message::text(Role::Assistant, &"y".repeat(huge));
    assistant.tool_calls.push(ToolCall { id: "call_1".to_string(), name: "read".to_string(), arguments: "{}".to_string() });
    let history = vec![AgentMessage::llm(assistant), AgentMessage::tool_result("call_1", "body")];
    assert_eq!(kept_start(&history), history.len(), "keep nothing rather than orphan the result");
    let small = vec![AgentMessage::text(Role::User, "hi"), AgentMessage::text(Role::Assistant, "hello")];
    assert_eq!(kept_start(&small), 0);
}

#[test]
fn serialize_conversation_truncates_long_tool_results() {
    let long = "z".repeat(TOOL_RESULT_MAX_CHARS + 10);
    let history = vec![AgentMessage::tool_result("call_1", &long)];
    let text = serialize_conversation(&history);
    assert!(text.contains("[... 10 more characters truncated]"), "{text}");
    assert!(text.starts_with("[Tool result]: zzz"));
}

#[test]
fn format_tool_arguments_renders_object_members_and_falls_back() {
    assert_eq!(format_tool_arguments("{\"a\": 1, \"b\": \"x\"}"), "a=1, b=\"x\"");
    assert_eq!(format_tool_arguments("not json"), "not json");
}

#[test]
fn estimate_message_tokens_counts_a_compact_summary() {
    let message = AgentMessage::compact_summary("abcd", 0, None);
    assert_eq!(estimate_message_tokens(&message), 1);
}

#[test]
fn should_compact_is_false_once_the_newest_entry_is_a_summary() {
    let huge = vec![
        text_message(estimated_context_window() * 4),
        AgentMessage::compact_summary("small", 1, None),
    ];
    assert!(!should_compact(&huge), "a trailing checkpoint never re-triggers compaction");
}

#[test]
fn should_compact_counts_a_checkpoint_that_follows_huge_history() {
    let history = vec![
        text_message(estimated_context_window() * 4),
        AgentMessage::compact_summary("summary", 1, None),
        AgentMessage::text(Role::User, "later"),
    ];
    assert!(should_compact(&history));
}

#[test]
fn serialize_conversation_skips_checkpoints_and_system_messages() {
    let history = vec![
        AgentMessage::llm(Message::text(Role::System, "system")),
        AgentMessage::compact_summary("old summary", 1, None),
        AgentMessage::text(Role::User, "hi"),
    ];
    assert_eq!(serialize_conversation(&history), "[User]: hi");
}

fn compactable_history() -> Vec<AgentMessage> {
    let mut messages = Vec::new();
    for i in 0..40 {
        messages.push(AgentMessage::text(Role::User, &format!("question {i}")));
        messages.push(AgentMessage::text(Role::Assistant, &format!("answer {} {}", i, "y".repeat(2000))));
    }
    messages
}

fn is_same(a: &AgentMessage, b: &AgentMessage) -> bool {
    match (a, b) {
        (AgentMessage::Llm(x), AgentMessage::Llm(y)) => x == y,
        _ => false,
    }
}

#[test]
fn compact_messages_replaces_the_old_span_and_keeps_the_tail() {
    let history = compactable_history();
    let tokens_before = estimate_total_tokens(&history);
    let plan = compact_plan(&history).unwrap();
    assert_eq!(plan.start, kept_start(&history));
    assert_eq!(plan.tokens_before, tokens_before);
    assert_eq!(plan.to_summarize.len(), plan.start);
    assert_eq!(plan.previous_summary, None);
    let prompt = summarization_request(&plan);
    assert!(prompt.contains("<conversation>"), "{prompt}");
    assert!(prompt.contains("[User]: question 0"), "{prompt}");
    assert!(prompt.contains("[Assistant]: answer 0"), "{prompt}");
    assert!(!prompt.contains("<previous-summary>"), "{prompt}");
    let compacted =
        compact_finish(&history, plan.start, plan.tokens_before, plan.previous_summary.clone(), "## Goal\nfinish\n", false)
            .unwrap();
    match &compacted[0] {
        AgentMessage::CompactSummary { summary, tokens_before: recorded, previous_summary } => {
            assert_eq!(summary, "## Goal\nfinish");
            assert_eq!(*recorded, tokens_before);
            assert_eq!(previous_summary, &None);
        }
        other => panic!("expected a checkpoint, got {other:?}"),
    }
    assert!(compacted.len() > 1, "the recent tail is kept");
    assert!(compacted.len() < history.len(), "the old span is gone");
    let kept = &compacted[1..];
    let tail = &history[history.len() - kept.len()..];
    assert!(kept.iter().zip(tail).all(|(a, b)| is_same(a, b)));
}

#[test]
fn compact_messages_merges_a_previous_summary() {
    let mut history = compactable_history();
    history.insert(0, AgentMessage::compact_summary("## Goal\nolder goal", 1, None));
    let plan = compact_plan(&history).unwrap();
    assert_eq!(plan.previous_summary.as_deref(), Some("## Goal\nolder goal"));
    assert!(plan.to_summarize.iter().all(|m| !m.is_compact_summary()));
    let prompt = summarization_request(&plan);
    assert!(prompt.contains("<previous-summary>\n## Goal\nolder goal\n</previous-summary>"));
    assert!(prompt.contains("incorporate into the existing summary"));
    let compacted =
        compact_finish(&history, plan.start, plan.tokens_before, plan.previous_summary.clone(), "merged", false).unwrap();
    match &compacted[0] {
        AgentMessage::CompactSummary { previous_summary, .. } => {
            assert_eq!(previous_summary.as_deref(), Some("## Goal\nolder goal"))
        }
        other => panic!("expected a checkpoint, got {other:?}"),
    }
    assert!(compacted.iter().skip(1).all(|m| !m.is_compact_summary()));
}

#[test]
fn compact_messages_rejects_a_history_that_fits_the_keep_budget() {
    let history = vec![AgentMessage::text(Role::User, "hi"), AgentMessage::text(Role::Assistant, "hello")];
    let err = compact_plan(&history).unwrap_err();
    assert!(err.contains("nothing to compact"), "err: {err}");
}

#[test]
fn compact_messages_rejects_an_oversized_checkpoint_with_nothing_new() {
    let history = vec![
        AgentMessage::compact_summary(&"x".repeat(estimated_context_window() * 4), 1, None),
        AgentMessage::text(Role::User, "small"),
    ];
    let err = compact_plan(&history).unwrap_err();
    assert_eq!(err, "nothing to compact: the history fits the retained budget");
}

#[test]
fn compact_messages_rejects_an_empty_summary() {
    let history = compactable_history();
    let plan = compact_plan(&history).unwrap();
    let err = compact_finish(&history, plan.start, plan.tokens_before, None, "   ", false).unwrap_err();
    assert!(err.contains("empty summary"), "err: {err}");
}

#[test]
fn compact_finish_refuses_a_cancelled_call() {
    let history = compactable_history();
    let plan = compact_plan(&history).unwrap();
    let err = compact_finish(&history, plan.start, plan.tokens_before, None, "fine", true).unwrap_err();
    assert_eq!(err, "compaction cancelled");
}

#[test]
fn compact_messages_serializes_the_conversation_and_requests_update() {
    let history = compactable_history();
    let plan = compact_plan(&history).unwrap();
    let prompt = summarization_request(&plan);
    assert!(prompt.contains("<conversation>"), "{prompt}");
    assert!(prompt.contains("[User]: question 0"), "{prompt}");
    assert!(prompt.contains("[Assistant]: answer 0"), "{prompt}");
    assert!(prompt.contains("## Goal"), "{prompt}");
    assert!(!prompt.contains("<previous-summary>"), "{prompt}");
    assert!(!prompt.contains("incorporate into the existing summary"));
}

#[test]
fn compact_messages_uses_a_bounded_uncached_request() {
    let config = ProviderConfig::new("test-key", "https://example.invalid/v1", "test-model")
        .with_cache(false)
        .with_max_tokens(SUMMARY_MAX_TOKENS);
    assert_eq!(config.max_tokens, Some(2048));
    assert!(!config.cache, "a one-off summary does not warm the cache");
}

#[test]
fn compact_messages_keeps_nothing_when_the_newest_message_is_too_large() {
    let history = vec![AgentMessage::text(Role::User, "write a lot"), text_message(estimated_context_window() * 4)];
    let plan = compact_plan(&history).unwrap();
    assert_eq!(plan.start, 2);
    let compacted = compact_finish(&history, plan.start, plan.tokens_before, None, "summary", false).unwrap();
    assert_eq!(compacted.len(), 1, "{compacted:?}");
    assert!(compacted[0].is_compact_summary());
}
