use slimcode::agent::{AgentEvent, StopReason};
use slimcode::ai::llm::{Delta, FinishReason};
use slimcode::ai::wire::{PromptTokensDetails, TokenUsage};
use slimcode::cli::render::{usage_summary, OpenLine, TextRenderer};

fn render_stream(events: &[AgentEvent]) -> String {
    let mut r = TextRenderer::new();
    for e in events {
        r.render(e);
    }
    r.out
}

fn agent_text(t: &str) -> AgentEvent {
    AgentEvent::Stream(Delta::Text(t.to_string()))
}
fn agent_reasoning(t: &str) -> AgentEvent {
    AgentEvent::Stream(Delta::Reasoning(t.to_string()))
}
fn agent_tc_start() -> AgentEvent {
    AgentEvent::Stream(Delta::ToolCallStart { index: 0, id: "c1".into(), name: "read".into() })
}
fn agent_tc_args() -> AgentEvent {
    AgentEvent::Stream(Delta::ToolCallArgs { index: 0, fragment: "{}".into() })
}
fn agent_done() -> AgentEvent {
    AgentEvent::Stream(Delta::Done(FinishReason::Stop))
}
fn agent_tool_start() -> AgentEvent {
    AgentEvent::ToolStart { name: "read".into(), arguments: "{\"path\": \"a.txt\"}".into() }
}
fn agent_tool_result(ok: bool) -> AgentEvent {
    AgentEvent::ToolResult {
        name: if ok { "read" } else { "bash" }.into(),
        ok,
        result: if ok { "hello" } else { "boom" }.into(),
    }
}
fn agent_stop() -> AgentEvent {
    AgentEvent::Stop(StopReason::Completed)
}

#[test]
fn streamed_text_is_written_as_is() {
    assert_eq!(render_stream(&[agent_text("hi")]), "hi");
    assert_eq!(render_stream(&[agent_text("hi ")]), "hi ");
    assert_eq!(render_stream(&[agent_text("done\n"), agent_stop()]), "done\n✓ done\n");
}

#[test]
fn reasoning_renders_as_prefixed_line() {
    assert_eq!(render_stream(&[agent_reasoning("think")]), "> think");
}

#[test]
fn reasoning_fragments_stream_inline_on_one_line() {
    assert_eq!(render_stream(&[agent_reasoning("The"), agent_reasoning(" user")]), "> The user");
}

#[test]
fn reasoning_embedded_newline_reprefixes_each_row() {
    assert_eq!(render_stream(&[agent_reasoning("line one\nline two")]), "> line one\n> line two");
}

#[test]
fn reasoning_after_open_text_starts_new_row() {
    assert_eq!(render_stream(&[agent_text("answer"), agent_reasoning("think")]), "answer\n> think");
}

#[test]
fn text_after_open_reasoning_starts_new_row() {
    assert_eq!(render_stream(&[agent_reasoning("think"), agent_text("answer")]), "> think\nanswer");
}

#[test]
fn raw_tool_deltas_are_suppressed() {
    assert_eq!(render_stream(&[agent_tc_start(), agent_tc_args(), agent_done(), agent_text("kept")]), "kept");
}

#[test]
fn tool_events_render_name_and_body() {
    assert_eq!(render_stream(&[agent_tool_start()]), "  ▶ read {\"path\": \"a.txt\"}\n");
    assert_eq!(render_stream(&[agent_tool_result(true)]), "  ✔ read: hello\n");
    assert_eq!(render_stream(&[agent_tool_result(false)]), "  ✖ bash: boom\n");
}

#[test]
fn stop_reasons_render() {
    assert_eq!(render_stream(&[agent_stop()]), "✓ done\n");
}

#[test]
fn usage_renders_with_leading_blank_line() {
    let mut r = TextRenderer::new();
    let u = TokenUsage { prompt_tokens: 5, completion_tokens: 3, total_tokens: 8, prompt_tokens_details: None };
    r.render_usage(&u);
    assert_eq!(r.out, "\ntokens: 5 prompt (0 cached, 0%) + 3 completion = 8 total\n");
}

#[test]
fn usage_renders_cached_count_when_details_present() {
    let mut r = TextRenderer::new();
    let u = TokenUsage {
        prompt_tokens: 20,
        completion_tokens: 4,
        total_tokens: 24,
        prompt_tokens_details: Some(PromptTokensDetails { cached_tokens: 16, cache_creation_input_tokens: 4 }),
    };
    r.render_usage(&u);
    assert_eq!(r.out, "\ntokens: 20 prompt (16 cached, 80%) + 4 completion = 24 total\n");
}

#[test]
fn structural_line_after_text_starts_new_row() {
    assert_eq!(render_stream(&[agent_text("answer"), agent_stop()]), "answer\n✓ done\n");
}

#[test]
fn text_trailing_newline_not_duplicated() {
    assert_eq!(render_stream(&[agent_text("done\n"), agent_stop()]), "done\n✓ done\n");
}

#[test]
fn full_stream_renders_in_expected_order() {
    let events = vec![
        AgentEvent::Turn { turn: 1 },
        agent_reasoning("Let me think"),
        agent_text("answer "),
        agent_text("fragment"),
        agent_tc_start(),
        agent_tc_args(),
        agent_tool_start(),
        agent_tool_result(true),
        agent_stop(),
    ];
    assert_eq!(
        render_stream(&events),
        "── turn 1 ──\n> Let me think\nanswer fragment\n  ▶ read {\"path\": \"a.txt\"}\n  ✔ read: hello\n✓ done\n"
    );
}

#[test]
fn max_iterations_stop_has_its_own_line() {
    assert_eq!(
        render_stream(&[agent_text("partial"), AgentEvent::Stop(StopReason::MaxIterations)]),
        "partial\n✖ stopped: max iterations reached\n"
    );
}

#[test]
fn renderer_tracks_the_open_row() {
    let mut r = TextRenderer::new();
    r.render(&agent_text("a"));
    assert_eq!(r.open, Some(OpenLine::Text));
    r.render(&agent_reasoning("b\n"));
    assert_eq!(r.open, None);
    r.render(&agent_reasoning("c"));
    assert_eq!(r.open, Some(OpenLine::Reasoning));
    assert_eq!(r.out, "a\n> b\n> c");
}

#[test]
fn usage_percent_rounds_down_and_handles_zero_prompt() {
    let u = TokenUsage {
        prompt_tokens: 3,
        completion_tokens: 0,
        total_tokens: 3,
        prompt_tokens_details: Some(PromptTokensDetails { cached_tokens: 2, cache_creation_input_tokens: 0 }),
    };
    assert_eq!(usage_summary(&u), "tokens: 3 prompt (2 cached, 66%) + 0 completion = 3 total");
    let z = TokenUsage { prompt_tokens: 0, completion_tokens: 0, total_tokens: 0, prompt_tokens_details: None };
    assert_eq!(usage_summary(&z), "tokens: 0 prompt (0 cached, 0%) + 0 completion = 0 total");
}
