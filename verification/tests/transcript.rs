use slimcode::agent::session::{AgentMessage, Message, Part, Role, ToolCall};
use slimcode::cli::transcript::{RenderItem, history_to_render_items, parse_skill_block};

fn assistant_calling(text: &str, id: &str, name: &str, arguments: &str) -> AgentMessage {
    AgentMessage::llm(Message {
        role: Role::Assistant,
        parts: vec![Part::Text { text: text.to_string() }],
        tool_calls: vec![ToolCall { id: id.to_string(), name: name.to_string(), arguments: arguments.to_string() }],
        tool_call_id: None,
    })
}

#[test]
fn history_replay_maps_text_messages_in_order() {
    let history = vec![
        AgentMessage::text(Role::User, "hello"),
        AgentMessage::text(Role::Assistant, "hi there"),
        AgentMessage::text(Role::User, "again"),
    ];
    assert_eq!(
        history_to_render_items(&history),
        vec![
            RenderItem::UserPrompt("hello".to_string()),
            RenderItem::Text("hi there".to_string()),
            RenderItem::UserPrompt("again".to_string()),
        ]
    );
}

#[test]
fn history_replay_pairs_tool_calls_with_results() {
    let history = vec![
        AgentMessage::text(Role::User, "check git"),
        assistant_calling("", "call_1", "bash", r#"{"command":"git log"}"#),
        AgentMessage::tool_result("call_1", "commit abc"),
        AgentMessage::text(Role::Assistant, "done"),
    ];
    assert_eq!(
        history_to_render_items(&history),
        vec![
            RenderItem::UserPrompt("check git".to_string()),
            RenderItem::ToolStart {
                tool_call_id: "call_1".to_string(),
                name: "bash".to_string(),
                arguments: r#"{"command":"git log"}"#.to_string(),
            },
            RenderItem::ToolResult {
                tool_call_id: "call_1".to_string(),
                name: "bash".to_string(),
                ok: true,
                result: "commit abc".to_string(),
            },
            RenderItem::Text("done".to_string()),
        ]
    );
}

#[test]
fn history_replay_renders_skill_trigger_prompt_as_skill_block() {
    let skill_block = "<skill name=\"grill\" location=\"/x/SKILL.md\">\nReferences are relative to /x.\n\nBody.\n</skill>\n\nmy plan";
    let history = vec![
        AgentMessage::text(Role::User, skill_block),
        AgentMessage::text(Role::User, "look at <skill name=\"x\">"),
    ];
    assert_eq!(
        history_to_render_items(&history),
        vec![
            RenderItem::Skill {
                name: "grill".to_string(),
                content: "References are relative to /x.\n\nBody.".to_string(),
            },
            RenderItem::UserPrompt("look at <skill name=\"x\">".to_string()),
        ]
    );
}

#[test]
fn history_replay_turns_skill_reads_into_skill_blocks() {
    let skill_block = "<skill name=\"grill\" location=\"/x/SKILL.md\">\nReferences are relative to /x.\n\n# Grill a plan\n\nBody.\n</skill>";
    let history = vec![
        assistant_calling("", "call_skill", "read", r#"{"path": "/x/SKILL.md"}"#),
        AgentMessage::tool_result("call_skill", skill_block),
    ];
    assert_eq!(
        history_to_render_items(&history),
        vec![RenderItem::Skill {
            name: "grill".to_string(),
            content: "References are relative to /x.\n\n# Grill a plan\n\nBody.".to_string(),
        }]
    );
}

#[test]
fn history_replay_renders_a_compaction_checkpoint_as_a_notice() {
    let history = vec![
        AgentMessage::text(Role::User, "old"),
        AgentMessage::compact_summary("## Goal\nx", 117_760, None),
        AgentMessage::text(Role::Assistant, "new"),
    ];
    assert_eq!(
        history_to_render_items(&history),
        vec![
            RenderItem::UserPrompt("old".to_string()),
            RenderItem::Notice("context compacted (117760 tokens before)".to_string()),
            RenderItem::Text("new".to_string()),
        ]
    );
}

#[test]
fn history_replay_marks_error_results_as_failed() {
    let history = vec![
        assistant_calling("", "call_2", "bash", "{}"),
        AgentMessage::tool_result("call_2", "Error: boom"),
    ];
    let items = history_to_render_items(&history);
    assert_eq!(
        items[1],
        RenderItem::ToolResult {
            tool_call_id: "call_2".to_string(),
            name: "bash".to_string(),
            ok: false,
            result: "Error: boom".to_string(),
        }
    );
}

#[test]
fn history_replay_skips_system_and_keeps_text_before_tool_calls() {
    let history = vec![
        AgentMessage::text(Role::System, "be helpful"),
        assistant_calling("reasoning aloud", "call_3", "read", "{}"),
    ];
    assert_eq!(
        history_to_render_items(&history),
        vec![
            RenderItem::Text("reasoning aloud".to_string()),
            RenderItem::ToolStart {
                tool_call_id: "call_3".to_string(),
                name: "read".to_string(),
                arguments: "{}".to_string(),
            },
        ]
    );
}

#[test]
fn history_replay_orphan_tool_result_becomes_its_own_block() {
    let history = vec![AgentMessage::tool_result("call_9", "Error: interrupted")];
    assert_eq!(
        history_to_render_items(&history),
        vec![RenderItem::ToolResult {
            tool_call_id: "call_9".to_string(),
            name: "tool".to_string(),
            ok: false,
            result: "Error: interrupted".to_string(),
        }]
    );
}

#[test]
fn a_second_result_for_one_call_is_named_tool() {
    let history = vec![
        assistant_calling("", "c", "bash", "{}"),
        AgentMessage::tool_result("c", "one"),
        AgentMessage::tool_result("c", "two"),
    ];
    let items = history_to_render_items(&history);
    assert_eq!(
        items[2],
        RenderItem::ToolResult { tool_call_id: "c".to_string(), name: "tool".to_string(), ok: true, result: "two".to_string() }
    );
}

#[test]
fn parse_skill_block_needs_the_opening_and_the_close() {
    assert_eq!(
        parse_skill_block("<skill name=\"a\">\nbody\n</skill>"),
        Some(("a".to_string(), "body".to_string()))
    );
    assert_eq!(parse_skill_block("<skill name=\"a\">\nbody"), None);
    assert_eq!(parse_skill_block("text <skill name=\"a\">\nbody\n</skill>"), None);
}
