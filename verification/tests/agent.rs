use slimcode::agent::session::{Message, Part, Role, ToolCall};
use slimcode::agent::{assemble, push_tool_result, AgentEvent, Delta, FinishReason, RunConfig};

fn r(t: &str) -> Delta {
    Delta::Reasoning(t.to_string())
}
fn t(t: &str) -> Delta {
    Delta::Text(t.to_string())
}
fn tc_start(index: usize, id: &str, name: &str) -> Delta {
    Delta::ToolCallStart { index, id: id.to_string(), name: name.to_string() }
}
fn tc_args(index: usize, frag: &str) -> Delta {
    Delta::ToolCallArgs { index, fragment: frag.to_string() }
}
fn done_stop() -> Delta {
    Delta::Done(FinishReason::Stop)
}
fn done_tools() -> Delta {
    Delta::Done(FinishReason::ToolCalls)
}

#[test]
fn assemble_joins_text_and_ignores_reasoning() {
    let (text, tcs, reason) = assemble(&[r("think"), t("hello "), t("world"), done_stop()]);
    assert_eq!(text, "hello world");
    assert!(tcs.is_empty());
    assert_eq!(reason, FinishReason::Stop);
}

#[test]
fn assemble_reconstructs_tool_calls_from_fragments() {
    let deltas = vec![
        tc_start(0, "call_1", "get_weather"),
        tc_args(0, "{\"city\": \"Beij"),
        tc_args(0, "ing\"}"),
        done_tools(),
    ];
    let (_, tcs, reason) = assemble(&deltas);
    assert_eq!(reason, FinishReason::ToolCalls);
    assert_eq!(tcs.len(), 1);
    assert_eq!(tcs[0].id, "call_1");
    assert_eq!(tcs[0].name, "get_weather");
    assert_eq!(tcs[0].arguments, "{\"city\": \"Beijing\"}");
}

#[test]
fn assemble_handles_two_parallel_tool_calls() {
    let deltas = vec![
        tc_start(0, "call_1", "get_weather"),
        tc_args(0, "{\"city\": \"Beijing\"}"),
        tc_start(1, "call_2", "get_time"),
        tc_args(1, "{\"city\": \"Shanghai\"}"),
        done_tools(),
    ];
    let (_, tcs, _) = assemble(&deltas);
    assert_eq!(tcs.len(), 2);
    assert_eq!(tcs[0].name, "get_weather");
    assert_eq!(tcs[1].name, "get_time");
}

#[test]
fn assemble_orders_calls_by_index_and_keeps_the_first_start() {
    let deltas = vec![
        tc_args(5, "dropped"),
        tc_start(5, "b", "second"),
        tc_start(2, "a", "first"),
        tc_start(5, "x", "ignored"),
        tc_args(5, "{}"),
        tc_args(2, "[]"),
    ];
    let (text, tcs, reason) = assemble(&deltas);
    assert_eq!(text, "");
    assert_eq!(reason, FinishReason::Stop);
    let got: Vec<(&str, &str, &str)> =
        tcs.iter().map(|c| (c.id.as_str(), c.name.as_str(), c.arguments.as_str())).collect();
    assert_eq!(got, vec![("a", "first", "[]"), ("b", "second", "{}")]);
}

#[test]
fn session_message_text_joins_text_parts() {
    let m = Message {
        role: Role::Assistant,
        parts: vec![Part::Text { text: "a".into() }, Part::Text { text: "b".into() }],
        tool_calls: vec![],
        tool_call_id: None,
    };
    assert_eq!(m.text_content(), "ab");
}

#[test]
fn push_tool_result_emits_events_and_prefixes_errors() {
    let tc = ToolCall { id: "call_1".to_string(), name: "fragile".to_string(), arguments: "{}".to_string() };
    let mut events = Vec::new();
    let mut messages = vec![Message::text(Role::User, "go")];
    push_tool_result(&tc, Err("no station".to_string()), &mut events, &mut messages);
    push_tool_result(&tc, Ok("25C".to_string()), &mut events, &mut messages);
    assert_eq!(messages.len(), 3);
    assert_eq!(messages[1].role, Role::Tool);
    assert_eq!(messages[1].text_content(), "Error: no station");
    assert_eq!(messages[1].tool_call_id.as_deref(), Some("call_1"));
    assert_eq!(messages[2].text_content(), "25C");
    assert_eq!(events.len(), 4);
    assert!(matches!(&events[1], AgentEvent::ToolResult { ok: false, result, .. } if result == "no station"));
    assert!(matches!(&events[2], AgentEvent::ToolStart { name, arguments } if name == "fragile" && arguments == "{}"));
}

#[test]
fn run_config_defaults_to_ten_serial_iterations() {
    let c = RunConfig::default();
    assert_eq!(c.max_iterations, 10);
    assert!(!c.parallel_tools);
}

use slimcode::agent::{find_tool, invalid_arguments_error, unknown_tool_error, AgentRun, RunResult, StopReason};

/// The two tools of the runs below: `get_weather` answers, `fragile_tool`
/// fails for Tokyo. Arguments are JSON objects with a `city`.
fn call_tool(tc: &ToolCall) -> Result<String, String> {
    let names = vec!["get_weather".to_string(), "fragile_tool".to_string()];
    let i = match find_tool(&names, &tc.name) {
        Some(i) => i,
        None => return Err(unknown_tool_error(&tc.name)),
    };
    let args: serde_json::Value =
        serde_json::from_str(&tc.arguments).map_err(|e| invalid_arguments_error(&tc.name, &e.to_string()))?;
    let city = args.get("city").and_then(serde_json::Value::as_str).unwrap_or("?");
    if i == 1 && city == "Tokyo" {
        return Err(format!("no weather station for {city}"));
    }
    let temp = if i == 0 { "25C" } else { "18C" };
    Ok(format!("{{\"city\": \"{city}\", \"temp\": \"{temp}\"}}"))
}

/// Drive a run the way the program does: each turn asks the scripted
/// provider for its reply (an `Err` aborts the run), then runs the tools.
fn drive_script(
    history: Vec<Message>,
    script: Vec<Result<Vec<Delta>, String>>,
    cfg: &RunConfig,
    calls: &mut usize,
) -> Result<RunResult, String> {
    let mut run = AgentRun::new(history, cfg);
    let mut replies = script.into_iter();
    while run.begin_turn().is_some() {
        *calls += 1;
        let deltas = replies.next().unwrap_or(Ok(Vec::new()))?;
        let tool_calls = run.take_response(deltas);
        for tc in &tool_calls {
            let res = call_tool(tc);
            run.record_tool_result(tc, res);
        }
        run.end_turn();
    }
    Ok(run.finish())
}

fn run(script: Vec<Vec<Delta>>, cfg: &RunConfig) -> RunResult {
    let history = vec![Message::text(Role::System, "be helpful"), Message::text(Role::User, "weather in Beijing?")];
    let mut calls = 0;
    drive_script(history, script.into_iter().map(Ok).collect(), cfg, &mut calls).unwrap()
}

#[test]
fn single_turn_no_tools_completes() {
    let res = run(vec![vec![t("Beijing is sunny."), done_stop()]], &RunConfig::default());
    assert_eq!(res.stop, StopReason::Completed);
    assert_eq!(res.iterations, 1);
    assert_eq!(res.messages.len(), 3);
    assert!(matches!(res.events.first(), Some(AgentEvent::Turn { turn: 1 })));
    assert!(matches!(res.events.last(), Some(AgentEvent::Stop(StopReason::Completed))));
}

#[test]
fn tool_call_then_answer_runs_two_turns() {
    let script = vec![
        vec![tc_start(0, "call_1", "get_weather"), tc_args(0, "{\"city\": \"Beijing\"}"), done_tools()],
        vec![t("Beijing is 25C."), done_stop()],
    ];
    let res = run(script, &RunConfig::default());
    assert_eq!(res.stop, StopReason::Completed);
    assert_eq!(res.iterations, 2);
    assert_eq!(res.messages.len(), 5);
    let tool_msg = res.messages.iter().find(|m| m.role == Role::Tool).unwrap();
    assert_eq!(tool_msg.tool_call_id.as_deref(), Some("call_1"));
    assert!(tool_msg.text_content().contains("25C"));
    assert!(res.events.iter().any(|e| matches!(e, AgentEvent::ToolResult { name, ok: true, .. } if name == "get_weather")));
}

#[test]
fn parallel_tools_executes_all_calls() {
    let script = vec![
        vec![
            tc_start(0, "call_1", "get_weather"),
            tc_args(0, "{\"city\": \"Beijing\"}"),
            tc_start(1, "get_time_idx", "get_weather"),
            tc_args(1, "{\"city\": \"Shanghai\"}"),
            done_tools(),
        ],
        vec![t("both done"), done_stop()],
    ];
    let res = run(script, &RunConfig { max_iterations: 5, parallel_tools: true });
    let tool_msgs: Vec<_> = res.messages.iter().filter(|m| m.role == Role::Tool).collect();
    assert_eq!(tool_msgs.len(), 2, "both parallel calls' results are in history");
}

#[test]
fn tool_error_surfaces_as_error_prefix_and_loop_continues() {
    let script = vec![
        vec![tc_start(0, "call_1", "fragile_tool"), tc_args(0, "{\"city\": \"Tokyo\"}"), done_tools()],
        vec![t("No station for Tokyo."), done_stop()],
    ];
    let res = run(script, &RunConfig::default());
    assert_eq!(res.stop, StopReason::Completed);
    let tool_msg = res.messages.iter().find(|m| m.role == Role::Tool).unwrap();
    assert!(tool_msg.text_content().starts_with("Error: "), "got: {}", tool_msg.text_content());
    let last = res.messages.last().unwrap();
    assert_eq!(last.role, Role::Assistant);
    assert!(last.text_content().contains("Tokyo"));
}

#[test]
fn runaway_loop_stops_at_max_iterations() {
    let script: Vec<Vec<Delta>> = (0..5)
        .map(|i| vec![tc_start(0, &format!("call_{i}"), "get_weather"), tc_args(0, "{\"city\": \"Beijing\"}"), done_tools()])
        .collect();
    let res = run(script, &RunConfig { max_iterations: 3, parallel_tools: false });
    assert_eq!(res.stop, StopReason::MaxIterations);
    assert_eq!(res.iterations, 3);
    let zero = run(vec![], &RunConfig { max_iterations: 0, parallel_tools: false });
    assert_eq!(zero.iterations, 0);
    assert_eq!(zero.stop, StopReason::Completed);
    assert_eq!(zero.messages.len(), 2);
}

#[test]
fn run_agent_from_messages_continues_existing_history() {
    let history = vec![
        Message::text(Role::System, "be helpful"),
        Message::text(Role::Assistant, "Earlier answer."),
        Message::text(Role::User, "Now: what is the weather?"),
    ];
    let script = vec![
        Ok(vec![tc_start(0, "call_1", "get_weather"), tc_args(0, "{\"city\": \"Beijing\"}"), done_tools()]),
        Ok(vec![t("Beijing is 25C."), done_stop()]),
    ];
    let mut calls = 0;
    let res = drive_script(history.clone(), script, &RunConfig::default(), &mut calls).unwrap();
    assert_eq!(res.stop, StopReason::Completed);
    assert_eq!(res.messages.len(), history.len() + 3);
    assert_eq!(res.messages[0].role, Role::System);
    assert_eq!(res.messages[1].role, Role::Assistant);
    assert!(res.messages[2].text_content().contains("weather"));
    assert_eq!(calls, 2);
}

#[test]
fn provider_error_aborts_the_run() {
    let history = vec![Message::text(Role::System, "sys"), Message::text(Role::User, "user")];
    let mut calls = 0;
    let err = drive_script(history, vec![Err("provider exploded".to_string())], &RunConfig::default(), &mut calls)
        .unwrap_err();
    assert!(err.contains("provider exploded"));
}

#[test]
fn unknown_tool_becomes_error_message() {
    let script = vec![
        vec![tc_start(0, "call_1", "nope"), tc_args(0, "{}"), done_tools()],
        vec![t("oops"), done_stop()],
    ];
    let res = run(script, &RunConfig::default());
    let tool_msg = res.messages.iter().find(|m| m.role == Role::Tool).unwrap();
    assert!(tool_msg.text_content().contains("unknown tool: nope"));
}

#[test]
fn malformed_arguments_reach_the_model_as_error_text() {
    let script = vec![
        vec![tc_start(0, "call_1", "get_weather"), tc_args(0, "{\"city\": "), done_tools()],
        vec![t("sorry"), done_stop()],
    ];
    let res = run(script, &RunConfig::default());
    let tool_msg = res.messages.iter().find(|m| m.role == Role::Tool).unwrap();
    assert!(tool_msg.text_content().starts_with("Error: invalid tool arguments for get_weather: "));
}
