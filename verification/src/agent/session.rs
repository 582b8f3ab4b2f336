//! The conversation model the agent runtime works on: messages of text parts
//! with optional tool calls, and a session around a message history.
//!
//! - `Message { role, parts, tool_calls, tool_call_id }`
//! - `Part = Text { text }`, `ToolCall { id, name, arguments }` (shared with
//!   the provider layer's message model).
//! - `Session { id, created_at, messages, title }` wraps a history.
use vstd::prelude::*;
use crate::text::push_str;
pub use crate::ai::message::{Part, Role, ToolCall, part_text, parts_text};
use crate::ai::message::{calls_view, copy_calls, copy_opt_string, opt_view, parts_view};

verus! {

broadcast use vstd::seq_lib::group_seq_properties;

/// One message in the conversation history.
#[derive(Clone, Debug, PartialEq, Eq)]
pub struct Message {
    pub role: Role,
    pub parts: Vec<Part>,
    pub tool_calls: Vec<ToolCall>,
    pub tool_call_id: Option<String>,
}

/// `m` is exactly the plain text message `Message::text(role, text)` builds:
/// one text part, no tool calls, no result id.
pub open spec fn is_text_message(m: Message, role: Role, text: Seq<char>) -> bool {
    &&& m.role == role
    &&& m.parts@.len() == 1
    &&& part_text(m.parts@[0]) == text
    &&& m.tool_calls@.len() == 0
    &&& m.tool_call_id is None
}

impl Message {
    /// The concatenated text of all `Text` parts.
    pub open spec fn content(&self) -> Seq<char> {
        parts_text(self.parts@)
    }

    /// Build a plain text message (`parts` = one `Text` part).
    pub fn text(role: Role, content: &str) -> (m: Message)
        ensures
            m.role == role,
            m.parts@.len() == 1,
            part_text(m.parts@[0]) == content@,
            m.content() == content@,
            m.tool_calls@.len() == 0,
            m.tool_call_id is None,
            is_text_message(m, role, content@),
    {
        let m = Message {
            role,
            parts: vec![Part::Text { text: String::from_str(content) }],
            tool_calls: Vec::new(),
            tool_call_id: None,
        };
        assert(m.parts@.drop_last() == Seq::<Part>::empty());
        assert(parts_text(m.parts@.drop_last()) == Seq::<char>::empty());
        assert(part_text(m.parts@.last()) == content@);
        assert(m.content() == Seq::<char>::empty() + content@);
        m
    }

    /// Build a tool-result message; the tool output goes in as `content`.
    pub fn tool_result(id: &str, content: &str) -> (m: Message)
        ensures
            m.role == Role::Tool,
            m.parts@.len() == 1,
            part_text(m.parts@[0]) == content@,
            m.content() == content@,
            m.tool_calls@.len() == 0,
            m.tool_call_id matches Some(i) && i@ == id@,
    {
        let m = Message {
            role: Role::Tool,
            parts: vec![Part::Text { text: String::from_str(content) }],
            tool_calls: Vec::new(),
            tool_call_id: Some(String::from_str(id)),
        };
        assert(m.parts@.drop_last() == Seq::<Part>::empty());
        assert(parts_text(m.parts@.drop_last()) == Seq::<char>::empty());
        assert(part_text(m.parts@.last()) == content@);
        assert(m.content() == Seq::<char>::empty() + content@);
        m
    }

    /// Concatenated text of all `Text` parts.
    pub fn text_content(&self) -> (s: String)
        ensures
            s@ == self.content(),
    {
        let mut out = String::new();
        let mut i: usize = 0;
        while i < self.parts.len()
            invariant
                i <= self.parts@.len(),
                out@ == parts_text(self.parts@.subrange(0, i as int)),
            decreases self.parts.len() - i,
        {
            match &self.parts[i] {
                Part::Text { text } => push_str(&mut out, text.as_str()),
            }
            assert(self.parts@.subrange(0, i + 1).drop_last() == self.parts@.subrange(0, i as int));
            i = i + 1;
        }
        assert(self.parts@.subrange(0, self.parts@.len() as int) == self.parts@);
        out
    }
}

/// Copies of a list of parts, in order.
pub fn copy_parts(ps: &Vec<Part>) -> (r: Vec<Part>)
    ensures
        r@.len() == ps@.len(),
        parts_view(r@) == parts_view(ps@),
        parts_text(r@) == parts_text(ps@),
{
    let mut r: Vec<Part> = Vec::new();
    let mut i: usize = 0;
    while i < ps.len()
        invariant
            i <= ps@.len(),
            r@.len() == i,
            parts_view(r@) == parts_view(ps@.subrange(0, i as int)),
            parts_text(r@) == parts_text(ps@.subrange(0, i as int)),
        decreases ps.len() - i,
    {
        let p = match &ps[i] {
            Part::Text { text } => Part::Text { text: text.clone() },
        };
        let ghost before = r@;
        r.push(p);
        assert(r@.drop_last() == before);
        assert(ps@.subrange(0, i + 1).drop_last() == ps@.subrange(0, i as int));
        assert(part_text(p) == part_text(ps@[i as int]));
        assert(parts_view(r@) == parts_view(before).push(part_text(p)));
        assert(parts_view(ps@.subrange(0, i + 1)) == parts_view(ps@.subrange(0, i as int)).push(
            part_text(ps@[i as int]),
        ));
        i = i + 1;
    }
    assert(ps@.subrange(0, ps@.len() as int) == ps@);
    r
}

impl Message {
    /// A copy with the same role, text, tool calls and result id.
    pub fn copy(&self) -> (r: Message)
        ensures
            r.role == self.role,
            r.parts@.len() == self.parts@.len(),
            parts_view(r.parts@) == parts_view(self.parts@),
            r.content() == self.content(),
            calls_view(r.tool_calls@) == calls_view(self.tool_calls@),
            opt_view(r.tool_call_id) == opt_view(self.tool_call_id),
    {
        Message {
            role: self.role,
            parts: copy_parts(&self.parts),
            tool_calls: copy_calls(&self.tool_calls),
            tool_call_id: copy_opt_string(&self.tool_call_id),
        }
    }
}

/// Session metadata around a message history.
#[derive(Clone, Debug, PartialEq, Eq)]
pub struct Session {
    pub id: String,
    pub created_at: String,
    pub messages: Vec<Message>,
    pub title: Option<String>,
}

/// One entry of a session's history: a message of the conversation, or a
/// compaction checkpoint that stands for the span of history it replaced.
/// A checkpoint never reaches the provider as itself; its summary is what
/// the model reads in place of that span.
#[derive(Clone, Debug)]
pub enum AgentMessage {
    Llm(Message),
    CompactSummary {
        /// The structured summary of the replaced span.
        summary: String,
        /// The estimated tokens of the history before the compaction.
        tokens_before: usize,
        /// The checkpoint this one superseded, if any.
        previous_summary: Option<String>,
    },
}

/// The text an entry carries: a message's text, a checkpoint's summary.
pub open spec fn agent_text(m: AgentMessage) -> Seq<char> {
    match m {
        AgentMessage::Llm(x) => x.content(),
        AgentMessage::CompactSummary { summary, .. } => summary@,
    }
}

/// An entry's tool calls (a checkpoint has none).
pub open spec fn agent_calls(m: AgentMessage) -> Seq<ToolCall> {
    match m {
        AgentMessage::Llm(x) => x.tool_calls@,
        AgentMessage::CompactSummary { .. } => Seq::empty(),
    }
}

/// An entry's role; a checkpoint reads as a user message.
pub open spec fn agent_role(m: AgentMessage) -> Role {
    match m {
        AgentMessage::Llm(x) => x.role,
        AgentMessage::CompactSummary { .. } => Role::User,
    }
}

impl AgentMessage {
    /// A plain text message entry.
    pub fn text(role: Role, content: &str) -> (m: AgentMessage)
        ensures
            m matches AgentMessage::Llm(x) && is_text_message(x, role, content@) && x.content() == content@,
    {
        AgentMessage::Llm(Message::text(role, content))
    }

    /// A tool-result entry.
    pub fn tool_result(id: &str, content: &str) -> (m: AgentMessage)
        ensures
            m matches AgentMessage::Llm(x) && x.role == Role::Tool && x.content() == content@
                && x.tool_calls@.len() == 0 && opt_view(x.tool_call_id) == Some(id@),
    {
        AgentMessage::Llm(Message::tool_result(id, content))
    }

    /// A message entry.
    pub fn llm(m: Message) -> (r: AgentMessage)
        ensures
            r == AgentMessage::Llm(m),
    {
        AgentMessage::Llm(m)
    }

    /// A compaction checkpoint.
    pub fn compact_summary(summary: &str, tokens_before: usize, previous_summary: Option<&str>) -> (m: AgentMessage)
        ensures
            m matches AgentMessage::CompactSummary { summary: s, tokens_before: t, previous_summary: p } && s@
                == summary@ && t == tokens_before && opt_view(p) == (match previous_summary {
                Some(x) => Some(x@),
                None => None,
            }),
    {
        AgentMessage::CompactSummary {
            summary: summary.to_owned(),
            tokens_before,
            previous_summary: match previous_summary {
                Some(x) => Some(x.to_owned()),
                None => None,
            },
        }
    }

    /// Whether this entry is a compaction checkpoint.
    pub fn is_compact_summary(&self) -> (b: bool)
        ensures
            b == (*self is CompactSummary),
    {
        match self {
            AgentMessage::CompactSummary { .. } => true,
            AgentMessage::Llm(_) => false,
        }
    }

    /// The entry's role (a checkpoint reads as a user message).
    pub fn role(&self) -> (r: Role)
        ensures
            r == agent_role(*self),
    {
        match self {
            AgentMessage::Llm(m) => m.role,
            AgentMessage::CompactSummary { .. } => Role::User,
        }
    }

    /// The entry's text.
    pub fn text_content(&self) -> (s: String)
        ensures
            s@ == agent_text(*self),
    {
        match self {
            AgentMessage::Llm(m) => m.text_content(),
            AgentMessage::CompactSummary { summary, .. } => summary.clone(),
        }
    }

    /// A copy with the same view.
    pub fn copy(&self) -> (r: AgentMessage)
        ensures
            agent_view(r) == agent_view(*self),
    {
        match self {
            AgentMessage::Llm(m) => AgentMessage::Llm(m.copy()),
            AgentMessage::CompactSummary { summary, tokens_before, previous_summary } => AgentMessage::CompactSummary {
                summary: summary.clone(),
                tokens_before: *tokens_before,
                previous_summary: copy_opt_string(previous_summary),
            },
        }
    }
}

/// What an entry is: a message (its role, its parts' texts and their
/// concatenation, its calls and result id), or a
/// checkpoint (summary, tokens before, previous summary).
pub ghost enum AgentView {
    Llm(Role, Seq<Seq<char>>, Seq<char>, Seq<(Seq<char>, Seq<char>, Seq<char>)>, Option<Seq<char>>),
    Summary(Seq<char>, nat, Option<Seq<char>>),
}

pub open spec fn agent_view(m: AgentMessage) -> AgentView {
    match m {
        AgentMessage::Llm(x) => AgentView::Llm(
            x.role,
            parts_view(x.parts@),
            x.content(),
            calls_view(x.tool_calls@),
            opt_view(x.tool_call_id),
        ),
        AgentMessage::CompactSummary { summary, tokens_before, previous_summary } => AgentView::Summary(
            summary@,
            tokens_before as nat,
            opt_view(previous_summary),
        ),
    }
}

pub open spec fn agent_views(ms: Seq<AgentMessage>) -> Seq<AgentView> {
    ms.map_values(|m: AgentMessage| agent_view(m))
}

} // verus!
