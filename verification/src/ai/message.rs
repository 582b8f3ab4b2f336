//! The LLM wire message model.
//!
//! - `Message { role, parts, tool_calls, tool_call_id, stop_reason, error }`
//! - `Part = Text { text }` (the parts abstraction; `Text` is the only kind).
//! - `ToolCall { id, name, arguments }`: `arguments` keeps the raw JSON string
//!   the model emitted; it is parsed only at execution time.
//!
//! `stop_reason` and `error` are session-log fields and never reach the
//! provider wire.
use vstd::prelude::*;
use crate::text::push_str;

verus! {

broadcast use vstd::seq_lib::group_seq_properties;

/// Message role. Lowercase on the wire.
#[derive(Clone, Copy, Debug, PartialEq, Eq, Structural)]
pub enum Role {
    System,
    User,
    Assistant,
    Tool,
}

/// One content part of a message. Only `Text` exists; the parts abstraction
/// leaves room for other kinds without changing the message shape.
#[derive(Clone, Debug, PartialEq, Eq)]
pub enum Part {
    Text { text: String },
}

/// A model-emitted tool invocation (assistant messages only).
#[derive(Clone, Debug, PartialEq, Eq)]
pub struct ToolCall {
    pub id: String,
    pub name: String,
    /// Raw JSON arguments string as the model emitted it.
    pub arguments: String,
}

/// Why a message closed a turn (the session log's `stop_reason` field).
/// `stop` / `tool_calls` mirror the provider finish reasons; `error` /
/// `aborted` mark a turn that failed or was cancelled.
#[derive(Clone, Copy, Debug, PartialEq, Eq, Structural)]
pub enum MessageStopReason {
    /// The model stopped with a final answer.
    Stop,
    /// The model requested tools.
    ToolCalls,
    /// The turn ended because of an error.
    Error,
    /// The turn was cancelled.
    Aborted,
}

/// One message in the conversation history.
#[derive(Clone, Debug, PartialEq, Eq)]
pub struct Message {
    pub role: Role,
    pub parts: Vec<Part>,
    pub tool_calls: Vec<ToolCall>,
    pub tool_call_id: Option<String>,
    /// Why this message closed a turn; `None` on ordinary messages.
    pub stop_reason: Option<MessageStopReason>,
    /// Error text carried by a failure-closing message.
    pub error: Option<String>,
}

/// The text of one part.
pub open spec fn part_text(p: Part) -> Seq<char> {
    match p {
        Part::Text { text } => text@,
    }
}

/// The concatenated text of a sequence of parts.
pub open spec fn parts_text(ps: Seq<Part>) -> Seq<char>
    decreases ps.len(),
{
    if ps.len() == 0 {
        Seq::empty()
    } else {
        parts_text(ps.drop_last()) + part_text(ps.last())
    }
}

/// The texts of a sequence of parts, one per part.
pub open spec fn parts_view(ps: Seq<Part>) -> Seq<Seq<char>> {
    ps.map_values(|p: Part| part_text(p))
}

/// A tool call as three char sequences `(id, name, arguments)`.
pub open spec fn call_view(tc: ToolCall) -> (Seq<char>, Seq<char>, Seq<char>) {
    (tc.id@, tc.name@, tc.arguments@)
}

pub open spec fn calls_view(tcs: Seq<ToolCall>) -> Seq<(Seq<char>, Seq<char>, Seq<char>)> {
    tcs.map_values(|tc: ToolCall| call_view(tc))
}

/// An optional string as an optional char sequence.
pub open spec fn opt_view(o: Option<String>) -> Option<Seq<char>> {
    match o {
        Some(s) => Some(s@),
        None => None,
    }
}

/// A copy of a string with the same chars.
pub fn copy_string(s: &String) -> (r: String)
    ensures
        r@ == s@,
{
    s.clone()
}

/// A copy of an optional string with the same chars.
pub fn copy_opt_string(o: &Option<String>) -> (r: Option<String>)
    ensures
        opt_view(r) == opt_view(*o),
{
    match o {
        Some(s) => Some(s.clone()),
        None => None,
    }
}

impl ToolCall {
    /// A copy with the same three strings.
    pub fn copy(&self) -> (r: ToolCall)
        ensures
            call_view(r) == call_view(*self),
    {
        ToolCall { id: self.id.clone(), name: self.name.clone(), arguments: self.arguments.clone() }
    }
}

/// Copies of a list of tool calls, in order.
pub fn copy_calls(tcs: &Vec<ToolCall>) -> (r: Vec<ToolCall>)
    ensures
        calls_view(r@) == calls_view(tcs@),
{
    let mut r: Vec<ToolCall> = Vec::new();
    let mut i: usize = 0;
    while i < tcs.len()
        invariant
            i <= tcs@.len(),
            calls_view(r@) == calls_view(tcs@.subrange(0, i as int)),
        decreases tcs.len() - i,
    {
        let ghost before = r@;
        r.push(tcs[i].copy());
        assert(calls_view(r@) == calls_view(before).push(call_view(tcs@[i as int])));
        assert(tcs@.subrange(0, i + 1) == tcs@.subrange(0, i as int).push(tcs@[i as int]));
        i = i + 1;
    }
    assert(tcs@.subrange(0, tcs@.len() as int) == tcs@);
    r
}

impl Message {
    /// The concatenated text of all `Text` parts.
    pub open spec fn content(&self) -> Seq<char> {
        parts_text(self.parts@)
    }

    /// Build a plain text message (`parts` = one `Text` part).
    pub fn text(role: Role, content: &str) -> (m: Message)
        ensures
            m.role == role,
            m.parts@.len() == 1,
            part_text(m.parts@[0]) == content@,
            m.content() == content@,
            m.tool_calls@.len() == 0,
            m.tool_call_id is None,
            m.stop_reason is None,
            m.error is None,
    {
        let m = Message {
            role,
            parts: vec![Part::Text { text: String::from_str(content) }],
            tool_calls: Vec::new(),
            tool_call_id: None,
            stop_reason: None,
            error: None,
        };
        assert(m.parts@.drop_last() == Seq::<Part>::empty());
        assert(parts_text(m.parts@.drop_last()) == Seq::<char>::empty());
        assert(part_text(m.parts@.last()) == content@);
        assert(m.content() == Seq::<char>::empty() + content@);
        m
    }

    /// Build a tool-result message; the tool output goes in as `content`.
    pub fn tool_result(id: &str, content: &str) -> (m: Message)
        ensures
            m.role == Role::Tool,
            m.parts@.len() == 1,
            part_text(m.parts@[0]) == content@,
            m.content() == content@,
            m.tool_calls@.len() == 0,
            opt_view(m.tool_call_id) == Some(id@),
            m.stop_reason is None,
            m.error is None,
    {
        let m = Message {
            role: Role::Tool,
            parts: vec![Part::Text { text: String::from_str(content) }],
            tool_calls: Vec::new(),
            tool_call_id: Some(String::from_str(id)),
            stop_reason: None,
            error: None,
        };
        assert(m.parts@.drop_last() == Seq::<Part>::empty());
        assert(parts_text(m.parts@.drop_last()) == Seq::<char>::empty());
        assert(part_text(m.parts@.last()) == content@);
        assert(m.content() == Seq::<char>::empty() + content@);
        m
    }

    /// Concatenated text of all `Text` parts.
    pub fn text_content(&self) -> (s: String)
        ensures
            s@ == self.content(),
    {
        let mut out = String::new();
        let mut i: usize = 0;
        while i < self.parts.len()
            invariant
                i <= self.parts@.len(),
                out@ == parts_text(self.parts@.subrange(0, i as int)),
            decreases self.parts.len() - i,
        {
            match &self.parts[i] {
                Part::Text { text } => push_str(&mut out, text.as_str()),
            }
            assert(self.parts@.subrange(0, i + 1).drop_last() == self.parts@.subrange(0, i as int));
            i = i + 1;
        }
        assert(self.parts@.subrange(0, self.parts@.len() as int) == self.parts@);
        out
    }
}

} // verus!
