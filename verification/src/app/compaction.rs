//! Compaction arithmetic and prompt text: the context window and its kept
//! tail, the `chars / 4` token estimate, the boundary of the history kept
//! after a compaction, and the text of the summarization request (the
//! serialized conversation, truncated tool results, and the prompt around
//! them). Calling the provider for the summary is done around this module.
use vstd::prelude::*;
use crate::agent::session::{AgentMessage, Message, Role, agent_calls, agent_role, agent_text, agent_view, agent_views, AgentView};
use crate::ai::message::opt_view;
use crate::text::{chars_of, dec, fmt_usize, join, join_chars, push_str, string_of, sub_chars, trim, trim_chars, views};

verus! {

broadcast use vstd::seq_lib::group_seq_properties;

/// Estimated context window (tokens) driving the compaction threshold.
pub const DEFAULT_CONTEXT_WINDOW: usize = 128_000;

/// Compact once the estimated history exceeds this percentage of the window.
pub const COMPACT_THRESHOLD_PERCENT: usize = 92;

/// Share of the window kept as recent history after a compaction.
pub const KEEP_RECENT_PERCENT: usize = 8;

/// Response cap for the summarization call: a summary never needs to be
/// long, and a bounded response keeps the compaction cheap.
pub const SUMMARY_MAX_TOKENS: u32 = 2048;

/// Maximum characters of a tool result serialized into the summarization
/// prompt.
pub const TOOL_RESULT_MAX_CHARS: usize = 2000;

/// The estimated context window, in tokens.
pub fn estimated_context_window() -> (n: usize)
    ensures
        n == DEFAULT_CONTEXT_WINDOW,
{
    DEFAULT_CONTEXT_WINDOW
}

/// The recent-history token budget kept after a compaction: 8% of the
/// window.
pub fn keep_recent_tokens() -> (n: usize)
    ensures
        n == DEFAULT_CONTEXT_WINDOW * KEEP_RECENT_PERCENT / 100,
        n == 10240,
{
    estimated_context_window() * KEEP_RECENT_PERCENT / 100
}

/// The token threshold: 92% of the window.
pub fn compact_threshold() -> (n: usize)
    ensures
        n == DEFAULT_CONTEXT_WINDOW * COMPACT_THRESHOLD_PERCENT / 100,
        n == 117760,
{
    estimated_context_window() * COMPACT_THRESHOLD_PERCENT / 100
}

/// The chars a message's estimate counts: its text, and each tool call's name
/// and raw arguments.
pub open spec fn counted_chars(m: AgentMessage) -> nat {
    agent_text(m).len() + calls_chars(agent_calls(m))
}

pub open spec fn calls_chars(tcs: Seq<crate::agent::session::ToolCall>) -> nat
    decreases tcs.len(),
{
    if tcs.len() == 0 {
        0
    } else {
        calls_chars(tcs.drop_last()) + tcs.last().name@.len() + tcs.last().arguments@.len()
    }
}

/// `ceil(n / 4)`.
pub open spec fn quarter_up(n: nat) -> nat {
    (n + 3) / 4
}

/// A message's estimated tokens: counted chars over four, rounded up.
pub open spec fn spec_message_tokens(m: AgentMessage) -> nat {
    quarter_up(counted_chars(m))
}

pub open spec fn spec_total_tokens(ms: Seq<AgentMessage>) -> nat
    decreases ms.len(),
{
    if ms.len() == 0 {
        0
    } else {
        spec_total_tokens(ms.drop_last()) + spec_message_tokens(ms.last())
    }
}

/// Estimate one entry's tokens with the `chars / 4` heuristic (rounded
/// up), counting the text (a checkpoint's summary) and every tool call's
/// name plus raw arguments.
pub fn estimate_message_tokens(msg: &AgentMessage) -> (n: usize)
    requires
        counted_chars(*msg) <= usize::MAX,
    ensures
        n == spec_message_tokens(*msg),
{
    let chars = match msg {
        AgentMessage::Llm(m) => message_chars(m),
        AgentMessage::CompactSummary { summary, .. } => chars_of(summary.as_str()).len(),
    };
    chars / 4 + if chars % 4 == 0 {
        0
    } else {
        1
    }
}

/// The chars a message's estimate counts.
fn message_chars(msg: &Message) -> (n: usize)
    requires
        msg.content().len() + calls_chars(msg.tool_calls@) <= usize::MAX,
    ensures
        n == msg.content().len() + calls_chars(msg.tool_calls@),
{
    let text = msg.text_content();
    let mut chars: usize = chars_of(text.as_str()).len();
    let mut i: usize = 0;
    while i < msg.tool_calls.len()
        invariant
            i <= msg.tool_calls@.len(),
            msg.content().len() + calls_chars(msg.tool_calls@) <= usize::MAX,
            chars == msg.content().len() + calls_chars(msg.tool_calls@.subrange(0, i as int)),
        decreases msg.tool_calls.len() - i,
    {
        proof {
            lemma_calls_chars_prefix(msg.tool_calls@, i as int + 1);
        }
        assert(msg.tool_calls@.subrange(0, i + 1).drop_last() == msg.tool_calls@.subrange(0, i as int));
        let call = &msg.tool_calls[i];
        chars = chars + chars_of(call.name.as_str()).len();
        chars = chars + chars_of(call.arguments.as_str()).len();
        i = i + 1;
    }
    assert(msg.tool_calls@.subrange(0, msg.tool_calls@.len() as int) == msg.tool_calls@);
    chars
}

proof fn lemma_calls_chars_prefix(tcs: Seq<crate::agent::session::ToolCall>, k: int)
    requires
        0 <= k <= tcs.len(),
    ensures
        calls_chars(tcs.subrange(0, k)) <= calls_chars(tcs),
    decreases tcs.len(),
{
    if k < tcs.len() {
        assert(tcs.drop_last().subrange(0, k) == tcs.subrange(0, k));
        lemma_calls_chars_prefix(tcs.drop_last(), k);
    } else {
        assert(tcs.subrange(0, k) == tcs);
    }
}

/// Sum of the estimates over a history.
pub fn estimate_total_tokens(messages: &[AgentMessage]) -> (n: usize)
    requires
        spec_total_tokens(messages@) <= usize::MAX,
        forall|i: int| 0 <= i < messages@.len() ==> counted_chars(#[trigger] messages@[i]) <= usize::MAX,
    ensures
        n == spec_total_tokens(messages@),
{
    let mut total: usize = 0;
    let mut i: usize = 0;
    while i < messages.len()
        invariant
            i <= messages@.len(),
            spec_total_tokens(messages@) <= usize::MAX,
            forall|j: int| 0 <= j < messages@.len() ==> counted_chars(#[trigger] messages@[j]) <= usize::MAX,
            total == spec_total_tokens(messages@.subrange(0, i as int)),
        decreases messages.len() - i,
    {
        proof {
            lemma_total_prefix(messages@, i as int + 1);
        }
        assert(messages@.subrange(0, i + 1).drop_last() == messages@.subrange(0, i as int));
        let t = estimate_message_tokens(&messages[i]);
        total = total + t;
        i = i + 1;
    }
    assert(messages@.subrange(0, messages@.len() as int) == messages@);
    total
}

proof fn lemma_total_prefix(ms: Seq<AgentMessage>, k: int)
    requires
        0 <= k <= ms.len(),
    ensures
        spec_total_tokens(ms.subrange(0, k)) <= spec_total_tokens(ms),
    decreases ms.len(),
{
    if k < ms.len() {
        assert(ms.drop_last().subrange(0, k) == ms.subrange(0, k));
        lemma_total_prefix(ms.drop_last(), k);
    } else {
        assert(ms.subrange(0, k) == ms);
    }
}

/// Walking back from the end, the first index whose suffix still fits the
/// budget: the suffix from `start` is the longest one whose estimates sum to
/// at most `budget`, counted from the newest message.
pub open spec fn fit_start(ms: Seq<AgentMessage>, budget: nat) -> nat
    decreases ms.len(),
{
    if ms.len() == 0 {
        0
    } else if spec_message_tokens(ms.last()) > budget {
        ms.len()
    } else {
        fit_start(ms.drop_last(), (budget - spec_message_tokens(ms.last())) as nat)
    }
}

/// The first index at or after `i` that is not a tool result.
pub open spec fn skip_tool_results(ms: Seq<AgentMessage>, i: nat) -> nat
    decreases ms.len() - i,
{
    if i < ms.len() && agent_role(ms[i as int]) == Role::Tool {
        skip_tool_results(ms, i + 1)
    } else {
        i
    }
}

/// The index of the first message kept by a compaction: the longest recent
/// suffix within the kept budget, then advanced past leading tool results
/// (a kept result must not lose the call it answers).
pub open spec fn spec_kept_start(ms: Seq<AgentMessage>) -> nat {
    skip_tool_results(ms, fit_start(ms, 10240))
}

proof fn lemma_fit_start_bound(ms: Seq<AgentMessage>, budget: nat)
    ensures
        fit_start(ms, budget) <= ms.len(),
    decreases ms.len(),
{
    if ms.len() > 0 && spec_message_tokens(ms.last()) <= budget {
        lemma_fit_start_bound(ms.drop_last(), (budget - spec_message_tokens(ms.last())) as nat);
    }
}

/// The index of the first message to keep when compacting `messages`: `0`
/// when the whole history fits the kept budget, `messages.len()` when even
/// the newest message alone exceeds it, and never at a tool result.
pub fn kept_start(messages: &[AgentMessage]) -> (start: usize)
    requires
        forall|i: int| 0 <= i < messages@.len() ==> counted_chars(#[trigger] messages@[i]) <= usize::MAX,
    ensures
        start == spec_kept_start(messages@),
        start <= messages@.len(),
        start < messages@.len() ==> agent_role(messages@[start as int]) != Role::Tool,
{
    let budget = keep_recent_tokens();
    let mut remaining: usize = budget;
    let mut start: usize = messages.len();
    let ghost ms = messages@;
    proof {
        assert(ms.subrange(0, ms.len() as int) == ms);
    }
    let mut done = false;
    while start > 0 && !done
        invariant
            start <= ms.len(),
            ms == messages@,
            forall|i: int| 0 <= i < messages@.len() ==> counted_chars(#[trigger] messages@[i]) <= usize::MAX,
            remaining <= budget,
            !done ==> fit_start(ms, 10240) == fit_start(ms.subrange(0, start as int), remaining as nat),
            done ==> fit_start(ms, 10240) == start,
        decreases 2 * start + (if done { 0int } else { 1int }),
    {
        let ghost pre = ms.subrange(0, start as int);
        assert(pre.last() == messages@[start - 1]);
        assert(pre.drop_last() == ms.subrange(0, start - 1));
        let tokens = estimate_message_tokens(&messages[start - 1]);
        if tokens > remaining {
            done = true;
        } else {
            remaining = remaining - tokens;
            start = start - 1;
        }
    }
    if !done {
        assert(ms.subrange(0, 0) == Seq::<AgentMessage>::empty());
    }
    proof {
        lemma_fit_start_bound(ms, 10240);
    }
    let ghost fit = start;
    while start < messages.len() && messages[start].role() == Role::Tool
        invariant
            fit <= start <= ms.len(),
            ms == messages@,
            skip_tool_results(ms, fit as nat) == skip_tool_results(ms, start as nat),
        decreases messages.len() - start,
    {
        start = start + 1;
    }
    start
}

/// Whether a history crossed the compaction threshold: its estimate is
/// strictly above 92% of the window. A history whose newest entry is a
/// checkpoint never triggers again.
pub fn should_compact(messages: &[AgentMessage]) -> (b: bool)
    requires
        spec_total_tokens(messages@) <= usize::MAX,
        forall|i: int| 0 <= i < messages@.len() ==> counted_chars(#[trigger] messages@[i]) <= usize::MAX,
    ensures
        b == (!(messages@.len() > 0 && messages@.last() is CompactSummary) && spec_total_tokens(messages@)
            > DEFAULT_CONTEXT_WINDOW * COMPACT_THRESHOLD_PERCENT / 100),
{
    let n = messages.len();
    if n > 0 && messages[n - 1].is_compact_summary() {
        return false;
    }
    estimate_total_tokens(messages) > compact_threshold()
}

/// `text` cut to `max` chars with a note of how many were dropped, or the
/// text itself when it is short enough.
pub open spec fn spec_truncate(text: Seq<char>, max: nat) -> Seq<char> {
    if text.len() <= max {
        text
    } else {
        text.subrange(0, max as int) + "\n\n[... "@ + dec((text.len() - max) as nat) + " more characters truncated]"@
    }
}

/// Truncate long text for the summarization prompt, marking how much was
/// cut.
pub fn truncate_for_summary(text: &str, max_chars: usize) -> (s: String)
    ensures
        s@ == spec_truncate(text@, max_chars as nat),
{
    let cs = chars_of(text);
    if cs.len() <= max_chars {
        return text.to_owned();
    }
    let mut out = string_of(&sub_chars(&cs, 0, max_chars));
    push_str(&mut out, "\n\n[... ");
    push_str(&mut out, fmt_usize(cs.len() - max_chars).as_str());
    push_str(&mut out, " more characters truncated]");
    out
}

/// The fixed summarization system prompt.
pub const SUMMARIZATION_SYSTEM_PROMPT: &'static str = "You are a context summarization assistant. Your task is to read a conversation between a user and an AI assistant, then produce a structured summary following the exact format specified.\n\nDo NOT continue the conversation. Do NOT respond to any questions in the conversation. ONLY output the structured summary.";

/// The initial summarization instruction.
pub const SUMMARIZATION_PROMPT: &'static str = "The messages above are a conversation to summarize. Create a structured context checkpoint summary that another LLM will use to continue the work.\n\nUse this EXACT format:\n\n## Goal\n[What is the user trying to accomplish? Can be multiple items if the session covers different tasks.]\n\n## Constraints & Preferences\n- [Any constraints, preferences, or requirements mentioned by user]\n- [Or \"(none)\" if none were mentioned]\n\n## Progress\n### Done\n- [x] [Completed tasks/changes]\n\n### In Progress\n- [ ] [Current work]\n\n### Blocked\n- [Issues preventing progress, if any]\n\n## Key Decisions\n- **[Decision]**: [Brief rationale]\n\n## Next Steps\n1. [Ordered list of what should happen next]\n\n## Critical Context\n- [Any data, examples, or references needed to continue]\n- [Or \"(none)\" if not applicable]\n\nKeep each section concise. Preserve exact file paths, function names, and error messages.";

/// The incremental instruction: merge the new messages into the existing
/// summary instead of regenerating it.
pub const UPDATE_SUMMARIZATION_PROMPT: &'static str = "The messages above are NEW conversation messages to incorporate into the existing summary provided in <previous-summary> tags.\n\nUpdate the existing structured summary with new information. RULES:\n- PRESERVE all existing information from the previous summary\n- ADD new progress, decisions, and context from the new messages\n- UPDATE the Progress section: move items from \"In Progress\" to \"Done\" when completed\n- UPDATE \"Next Steps\" based on what was accomplished\n- PRESERVE exact file paths, function names, and error messages\n- If something is no longer relevant, you may remove it\n\nUse this EXACT format:\n\n## Goal\n[Preserve existing goals, add new ones if the task expanded]\n\n## Constraints & Preferences\n- [Preserve existing, add new ones discovered]\n\n## Progress\n### Done\n- [x] [Include previously done items AND newly completed items]\n\n### In Progress\n- [ ] [Current work - update based on progress]\n\n### Blocked\n- [Current blockers - remove if resolved]\n\n## Key Decisions\n- **[Decision]**: [Brief rationale] (preserve all previous, add new)\n\n## Next Steps\n1. [Update based on current state]\n\n## Critical Context\n- [Preserve important context, add new if needed]\n\nKeep each section concise. Preserve exact file paths, function names, and error messages.";

/// The summarization user prompt: the conversation in `<conversation>`
/// tags, the previous summary (when updating) in `<previous-summary>` tags,
/// then the matching instruction.
pub open spec fn spec_summarization_prompt(conversation: Seq<char>, previous: Option<Seq<char>>) -> Seq<char> {
    "<conversation>\n"@ + conversation + "\n</conversation>\n\n"@ + match previous {
        Some(p) => "<previous-summary>\n"@ + p + "\n</previous-summary>\n\n"@ + UPDATE_SUMMARIZATION_PROMPT@,
        None => SUMMARIZATION_PROMPT@,
    }
}

/// Build the summarization user prompt.
pub fn build_summarization_prompt(conversation: &str, previous_summary: Option<&str>) -> (s: String)
    ensures
        s@ == spec_summarization_prompt(
            conversation@,
            match previous_summary {
                Some(p) => Some(p@),
                None => None,
            },
        ),
{
    let mut prompt = String::from_str("<conversation>\n");
    push_str(&mut prompt, conversation);
    push_str(&mut prompt, "\n</conversation>\n\n");
    match previous_summary {
        Some(previous) => {
            push_str(&mut prompt, "<previous-summary>\n");
            push_str(&mut prompt, previous);
            push_str(&mut prompt, "\n</previous-summary>\n\n");
            push_str(&mut prompt, UPDATE_SUMMARIZATION_PROMPT);
        },
        None => {
            push_str(&mut prompt, SUMMARIZATION_PROMPT);
        },
    }
    prompt
}

/// The members of a JSON object text, each as its key and the JSON rendering
/// of its value, in `serde_json`'s map order; none when the text is not a
/// JSON object.
pub uninterp spec fn json_object_members(s: Seq<char>) -> Option<Seq<(Seq<char>, Seq<char>)>>;

pub open spec fn pairs_view(v: Seq<(String, String)>) -> Seq<(Seq<char>, Seq<char>)> {
    v.map_values(|p: (String, String)| (p.0@, p.1@))
}

/// `serde_json::from_str::<Value>` on the text; for an object, its members
/// with each value rendered by `Value`'s `Display` (compact JSON). The
/// contract names the result and says no more of it.
#[verifier::external_body]
fn object_members(s: &str) -> (r: Option<Vec<(String, String)>>)
    ensures
        match r {
            Some(v) => json_object_members(s@) == Some(pairs_view(v@)),
            None => json_object_members(s@) is None,
        },
{
    match serde_json::from_str::<serde_json::Value>(s) {
        Ok(serde_json::Value::Object(map)) => Some(map.iter().map(|(k, v)| (k.clone(), v.to_string())).collect()),
        _ => None,
    }
}

/// `key=value` for each member.
pub open spec fn member_texts(ms: Seq<(Seq<char>, Seq<char>)>) -> Seq<Seq<char>> {
    ms.map_values(|p: (Seq<char>, Seq<char>)| p.0 + seq!['='] + p.1)
}

/// Raw JSON arguments as `key=value, ...` from the object's members, or the
/// raw string when it is not a JSON object.
pub open spec fn spec_format_arguments(args: Seq<char>) -> Seq<char> {
    match json_object_members(args) {
        Some(ms) => join(member_texts(ms), ", "@),
        None => args,
    }
}

/// Render a raw JSON arguments string as `key=value, ...` from its object
/// members, falling back to the raw string when it is not a JSON object.
pub fn format_tool_arguments(arguments: &str) -> (s: String)
    ensures
        s@ == spec_format_arguments(arguments@),
{
    match object_members(arguments) {
        Some(members) => {
            let mut texts: Vec<Vec<char>> = Vec::new();
            let mut i: usize = 0;
            while i < members.len()
                invariant
                    i <= members@.len(),
                    views(texts@) == member_texts(pairs_view(members@)).subrange(0, i as int),
                decreases members.len() - i,
            {
                let mut t = chars_of(members[i].0.as_str());
                t.push('=');
                crate::text::append_chars(&mut t, &chars_of(members[i].1.as_str()));
                let ghost before = texts@;
                assert(t@ == members@[i as int].0@ + seq!['='] + members@[i as int].1@);
                assert(member_texts(pairs_view(members@))[i as int] == t@);
                assert(member_texts(pairs_view(members@)).subrange(0, i + 1) == member_texts(pairs_view(members@)).subrange(0, i as int).push(t@));
                texts.push(t);
                assert(views(texts@) == views(before).push(t@));
                i = i + 1;
            }
            assert(member_texts(pairs_view(members@)).subrange(0, members@.len() as int) == member_texts(
                pairs_view(members@),
            ));
            let sep = chars_of(", ");
            string_of(&join_chars(&texts, &sep))
        },
        None => arguments.to_owned(),
    }
}

/// The `name(arguments)` renderings of a message's tool calls.
pub open spec fn call_texts(tcs: Seq<crate::agent::session::ToolCall>) -> Seq<Seq<char>> {
    tcs.map_values(
        |tc: crate::agent::session::ToolCall| tc.name@ + seq!['('] + spec_format_arguments(tc.arguments@) + seq![')'],
    )
}

/// The lines one message contributes to the serialized conversation.
pub open spec fn message_lines(m: Message) -> Seq<Seq<char>> {
    let text = m.content();
    match m.role {
        Role::User => if text.len() > 0 {
            seq!["[User]: "@ + text]
        } else {
            Seq::empty()
        },
        Role::Assistant => (if text.len() > 0 {
            seq!["[Assistant]: "@ + text]
        } else {
            Seq::empty()
        }) + (if m.tool_calls@.len() > 0 {
            seq!["[Assistant tool calls]: "@ + join(call_texts(m.tool_calls@), "; "@)]
        } else {
            Seq::empty()
        }),
        Role::Tool => if text.len() > 0 {
            seq!["[Tool result]: "@ + spec_truncate(text, TOOL_RESULT_MAX_CHARS as nat)]
        } else {
            Seq::empty()
        },
        Role::System => Seq::empty(),
    }
}

/// The lines an entry contributes: a checkpoint is not conversation text.
pub open spec fn entry_lines(m: AgentMessage) -> Seq<Seq<char>> {
    match m {
        AgentMessage::Llm(x) => message_lines(x),
        AgentMessage::CompactSummary { .. } => Seq::empty(),
    }
}

pub open spec fn conversation_lines(ms: Seq<AgentMessage>) -> Seq<Seq<char>>
    decreases ms.len(),
{
    if ms.len() == 0 {
        Seq::empty()
    } else {
        conversation_lines(ms.drop_last()) + entry_lines(ms.last())
    }
}

/// The serialized conversation: the lines of every message, blank-line
/// separated.
pub open spec fn spec_serialize(ms: Seq<AgentMessage>) -> Seq<char> {
    join(conversation_lines(ms), "\n\n"@)
}

fn push_line(lines: &mut Vec<Vec<char>>, prefix: &str, body: &str)
    ensures
        views(final(lines)@) == views(old(lines)@).push(prefix@ + body@),
{
    let mut t = chars_of(prefix);
    crate::text::append_chars(&mut t, &chars_of(body));
    let ghost before = lines@;
    lines.push(t);
    assert(views(lines@) == views(before).push(t@));
}

/// Serialize a history as plain text so the summarization model reads it as
/// material to summarize: one entry per message, tool results truncated,
/// system messages and checkpoints left out.
pub fn serialize_conversation(messages: &[AgentMessage]) -> (s: String)
    ensures
        s@ == spec_serialize(messages@),
{
    let mut lines: Vec<Vec<char>> = Vec::new();
    let mut i: usize = 0;
    while i < messages.len()
        invariant
            i <= messages@.len(),
            views(lines@) == conversation_lines(messages@.subrange(0, i as int)),
        decreases messages.len() - i,
    {
        let ghost start = views(lines@);
        match &messages[i] {
            AgentMessage::CompactSummary { .. } => {},
            AgentMessage::Llm(m) => {
        let text = m.text_content();
        let empty = text.as_str().is_empty();
        match m.role {
            Role::User => {
                if !empty {
                    push_line(&mut lines, "[User]: ", text.as_str());
                }
            },
            Role::Assistant => {
                if !empty {
                    push_line(&mut lines, "[Assistant]: ", text.as_str());
                }
                if m.tool_calls.len() > 0 {
                    let mut calls: Vec<Vec<char>> = Vec::new();
                    let mut k: usize = 0;
                    while k < m.tool_calls.len()
                        invariant
                            k <= m.tool_calls@.len(),
                            views(calls@) == call_texts(m.tool_calls@).subrange(0, k as int),
                        decreases m.tool_calls.len() - k,
                    {
                        let tc = &m.tool_calls[k];
                        let mut t = chars_of(tc.name.as_str());
                        t.push('(');
                        let rendered = format_tool_arguments(tc.arguments.as_str());
                        crate::text::append_chars(&mut t, &chars_of(rendered.as_str()));
                        t.push(')');
                        let ghost before = calls@;
                        assert(t@ == tc.name@ + seq!['('] + spec_format_arguments(tc.arguments@) + seq![')']);
                        assert(call_texts(m.tool_calls@)[k as int] == t@);
                        assert(call_texts(m.tool_calls@).subrange(0, k + 1) == call_texts(m.tool_calls@).subrange(0, k as int).push(t@));
                        calls.push(t);
                        assert(views(calls@) == views(before).push(t@));
                        k = k + 1;
                    }
                    assert(call_texts(m.tool_calls@).subrange(0, m.tool_calls@.len() as int) == call_texts(
                        m.tool_calls@,
                    ));
                    let joined = string_of(&join_chars(&calls, &chars_of("; ")));
                    push_line(&mut lines, "[Assistant tool calls]: ", joined.as_str());
                }
            },
            Role::Tool => {
                if !empty {
                    let cut = truncate_for_summary(text.as_str(), TOOL_RESULT_MAX_CHARS);
                    push_line(&mut lines, "[Tool result]: ", cut.as_str());
                }
            },
            Role::System => {},
        }
            },
        }
        assert(views(lines@) == start + entry_lines(messages@[i as int]));
        assert(messages@.subrange(0, i + 1).drop_last() == messages@.subrange(0, i as int));
        i = i + 1;
    }
    assert(messages@.subrange(0, messages@.len() as int) == messages@);
    string_of(&join_chars(&lines, &chars_of("\n\n")))
}

/// Why a compaction did not happen: the span before the kept tail holds no
/// conversation to summarize.
pub const NOTHING_TO_COMPACT: &'static str = "nothing to compact: the history fits the retained budget";

/// The entries of `ms` that are not checkpoints, in order.
pub open spec fn non_summaries(ms: Seq<AgentMessage>) -> Seq<AgentMessage>
    decreases ms.len(),
{
    if ms.len() == 0 {
        Seq::empty()
    } else if ms.last() is CompactSummary {
        non_summaries(ms.drop_last())
    } else {
        non_summaries(ms.drop_last()).push(ms.last())
    }
}

/// The summary of the newest checkpoint in `ms`, if any.
pub open spec fn last_summary(ms: Seq<AgentMessage>) -> Option<Seq<char>>
    decreases ms.len(),
{
    if ms.len() == 0 {
        None
    } else {
        match ms.last() {
            AgentMessage::CompactSummary { summary, .. } => Some(summary@),
            AgentMessage::Llm(_) => last_summary(ms.drop_last()),
        }
    }
}

/// What a compaction of a history summarizes and keeps.
#[derive(Debug)]
pub struct CompactPlan {
    /// The first entry of the kept tail.
    pub start: usize,
    /// The history's estimate before the compaction.
    pub tokens_before: usize,
    /// The span before the kept tail, without checkpoints.
    pub to_summarize: Vec<AgentMessage>,
    /// The newest checkpoint's summary, to be updated rather than
    /// regenerated.
    pub previous_summary: Option<String>,
}

/// Plan a compaction of `messages`: the kept tail starts at
/// [`kept_start`]; the span before it, without checkpoints, is what gets
/// summarized, updating the newest checkpoint's summary when there is one.
/// There is nothing to compact when the whole history fits the kept budget
/// or the span holds only checkpoints.
pub fn compact_plan(messages: &[AgentMessage]) -> (r: Result<CompactPlan, String>)
    requires
        spec_total_tokens(messages@) <= usize::MAX,
        forall|i: int| 0 <= i < messages@.len() ==> counted_chars(#[trigger] messages@[i]) <= usize::MAX,
    ensures
        ({
            let start = spec_kept_start(messages@);
            let span = non_summaries(messages@.subrange(0, start as int));
            &&& r is Err <==> (start == 0 || span.len() == 0)
            &&& r matches Err(e) ==> e@ == NOTHING_TO_COMPACT@
            &&& r matches Ok(p) ==> {
                &&& p.start == start
                &&& p.start <= messages@.len()
                &&& p.tokens_before == spec_total_tokens(messages@)
                &&& agent_views(p.to_summarize@) == agent_views(span)
                &&& opt_view(p.previous_summary) == last_summary(messages@)
            }
        }),
{
    let tokens_before = estimate_total_tokens(messages);
    let start = kept_start(messages);
    if start == 0 {
        return Err(NOTHING_TO_COMPACT.to_owned());
    }
    let ghost ms = messages@;
    let mut span: Vec<AgentMessage> = Vec::new();
    let mut previous: Option<String> = None;
    let n = messages.len();
    let mut i: usize = 0;
    while i < n
        invariant
            n == ms.len(),
            ms == messages@,
            start <= n,
            i <= n,
            agent_views(span@) == agent_views(non_summaries(ms.subrange(0, if i < start { i as int } else { start as int }))),
            opt_view(previous) == last_summary(ms.subrange(0, i as int)),
        decreases n - i,
    {
        assert(ms.subrange(0, i + 1).drop_last() == ms.subrange(0, i as int));
        assert(ms.subrange(0, i + 1).last() == ms[i as int]);
        match &messages[i] {
            AgentMessage::CompactSummary { summary, .. } => {
                previous = Some(summary.clone());
            },
            AgentMessage::Llm(_) => {
                if i < start {
                    let ghost before = span@;
                    span.push(messages[i].copy());
                    assert(agent_views(span@) == agent_views(before).push(agent_view(messages@[i as int])));
                }
            },
        }
        i = i + 1;
    }
    assert(ms.subrange(0, n as int) == ms);
    if span.len() == 0 {
        return Err(NOTHING_TO_COMPACT.to_owned());
    }
    Ok(CompactPlan { start, tokens_before, to_summarize: span, previous_summary: previous })
}

/// The user prompt of a planned compaction's summarization request: the
/// span serialized, with the previous summary when updating.
pub fn summarization_request(plan: &CompactPlan) -> (s: String)
    ensures
        s@ == spec_summarization_prompt(spec_serialize(plan.to_summarize@), opt_view(plan.previous_summary)),
{
    let conversation = serialize_conversation(plan.to_summarize.as_slice());
    match &plan.previous_summary {
        Some(p) => build_summarization_prompt(conversation.as_str(), Some(p.as_str())),
        None => build_summarization_prompt(conversation.as_str(), None),
    }
}

/// Why a compaction was abandoned after the summarization call.
pub const COMPACTION_CANCELLED: &'static str = "compaction cancelled";

/// Why a compaction was abandoned when the model gave no summary.
pub const EMPTY_SUMMARY: &'static str = "compaction produced an empty summary";

/// Finish a compaction once the summarization call returned `reply`: a
/// cancelled call, or a reply with no text once trimmed, leaves the history
/// as it was (an error); otherwise the new history is one checkpoint with
/// the trimmed summary, `tokens_before` and the superseded summary, then the
/// kept tail from `start` without any stale checkpoint.
pub fn compact_finish(
    messages: &[AgentMessage],
    start: usize,
    tokens_before: usize,
    previous_summary: Option<String>,
    reply: &str,
    cancelled: bool,
) -> (r: Result<Vec<AgentMessage>, String>)
    requires
        start <= messages@.len(),
    ensures
        r is Err <==> (cancelled || trim(reply@).len() == 0),
        r matches Err(e) ==> e@ == (if cancelled {
            COMPACTION_CANCELLED@
        } else {
            EMPTY_SUMMARY@
        }),
        r matches Ok(v) ==> agent_views(v@) == seq![
            AgentView::Summary(trim(reply@), tokens_before as nat, opt_view(previous_summary)),
        ] + agent_views(non_summaries(messages@.subrange(start as int, messages@.len() as int))),
{
    if cancelled {
        return Err(COMPACTION_CANCELLED.to_owned());
    }
    let summary = string_of(&trim_chars(&chars_of(reply)));
    if summary.as_str().is_empty() {
        return Err(EMPTY_SUMMARY.to_owned());
    }
    let ghost ms = messages@;
    let ghost head = AgentView::Summary(trim(reply@), tokens_before as nat, opt_view(previous_summary));
    let mut out: Vec<AgentMessage> = Vec::new();
    out.push(AgentMessage::CompactSummary { summary, tokens_before, previous_summary });
    assert(agent_views(out@) == seq![head]);
    let n = messages.len();
    let mut i: usize = start;
    assert(ms.subrange(start as int, start as int) == Seq::<AgentMessage>::empty());
    while i < n
        invariant
            n == ms.len(),
            ms == messages@,
            start <= i <= n,
            agent_views(out@) == seq![head] + agent_views(non_summaries(ms.subrange(start as int, i as int))),
        decreases n - i,
    {
        assert(ms.subrange(start as int, i + 1).drop_last() == ms.subrange(start as int, i as int));
        assert(ms.subrange(start as int, i + 1).last() == ms[i as int]);
        if !messages[i].is_compact_summary() {
            let ghost before = out@;
            out.push(messages[i].copy());
            assert(agent_views(out@) == agent_views(before).push(agent_view(messages@[i as int])));
        }
        i = i + 1;
    }
    Ok(out)
}

/// The line an assistant message's tool calls contribute to a summarization
/// request: each call as `name(arguments)`, the arguments formatted, joined
/// with `; `.
pub open spec fn tool_calls_line(calls: Seq<crate::agent::session::ToolCall>) -> Seq<char> {
    "[Assistant tool calls]: "@ + join(
        calls.map_values(
            |tc: crate::agent::session::ToolCall| tc.name@ + seq!['('] + spec_format_arguments(tc.arguments@) + seq![
                ')',
            ],
        ),
        "; "@,
    )
}

proof fn lemma_lines_prefix(ms: Seq<AgentMessage>, k: int)
    requires
        0 <= k <= ms.len(),
    ensures
        conversation_lines(ms) == conversation_lines(ms.subrange(0, k)) + conversation_lines(ms).subrange(
            conversation_lines(ms.subrange(0, k)).len() as int,
            conversation_lines(ms).len() as int,
        ),
        conversation_lines(ms.subrange(0, k)).len() <= conversation_lines(ms).len(),
        conversation_lines(ms.subrange(0, k)) == conversation_lines(ms).subrange(
            0,
            conversation_lines(ms.subrange(0, k)).len() as int,
        ),
    decreases ms.len() - k,
{
    if k == ms.len() {
        assert(ms.subrange(0, k) == ms);
    } else {
        lemma_lines_prefix(ms, k + 1);
        let p = ms.subrange(0, k + 1);
        assert(p.drop_last() == ms.subrange(0, k));
    }
}

/// A summarization request never drops tool calls: for every assistant
/// message of a history that requested at least one tool, the serialized
/// conversation holds the line `[Assistant tool calls]: ` with its calls,
/// whether or not the message also has text, right after the message's
/// text line when there is one.
pub proof fn lemma_serialized_keeps_every_tool_call(ms: Seq<AgentMessage>, i: int)
    requires
        0 <= i < ms.len(),
        ms[i] matches AgentMessage::Llm(m) && m.role == Role::Assistant && m.tool_calls@.len() > 0,
    ensures
        conversation_lines(ms).contains(tool_calls_line(ms[i]->Llm_0.tool_calls@)),
{
    let m = ms[i]->Llm_0;
    let pre = ms.subrange(0, i + 1);
    assert(pre.drop_last() == ms.subrange(0, i));
    assert(pre.last() == ms[i]);
    assert(call_texts(m.tool_calls@) =~= m.tool_calls@.map_values(
        |tc: crate::agent::session::ToolCall| tc.name@ + seq!['('] + spec_format_arguments(tc.arguments@) + seq![')'],
    ));
    let line = tool_calls_line(m.tool_calls@);
    let own = message_lines(m);
    assert(own.last() == line);
    let before = conversation_lines(ms.subrange(0, i));
    assert(conversation_lines(pre) == before + own);
    lemma_lines_prefix(ms, i + 1);
    let all = conversation_lines(ms);
    let at = conversation_lines(pre).len() - 1;
    assert(conversation_lines(pre)[at] == line);
    assert(all[at] == line);
}

proof fn lemma_entry_lines_in(ms: Seq<AgentMessage>, i: int)
    requires
        0 <= i < ms.len(),
    ensures
        forall|k: int| 0 <= k < entry_lines(ms[i]).len() ==> conversation_lines(ms).contains(#[trigger] entry_lines(ms[i])[k]),
{
    let pre = ms.subrange(0, i + 1);
    assert(pre.drop_last() == ms.subrange(0, i));
    assert(pre.last() == ms[i]);
    let before = conversation_lines(ms.subrange(0, i));
    let own = entry_lines(ms[i]);
    assert(conversation_lines(pre) == before + own);
    lemma_lines_prefix(ms, i + 1);
    let all = conversation_lines(ms);
    assert forall|k: int| 0 <= k < own.len() implies all.contains(#[trigger] own[k]) by {
        assert(conversation_lines(pre)[before.len() + k] == own[k]);
        assert(all[before.len() + k] == own[k]);
    }
}

/// A summarization request keeps every message's text: a user message's
/// text as `[User]: text`, an assistant message's as `[Assistant]: text`,
/// a tool result's as `[Tool result]: text` (cut to 2000 chars with a note
/// of how many were dropped), whenever the text is not empty.
pub proof fn lemma_serialized_keeps_every_text(ms: Seq<AgentMessage>, i: int)
    requires
        0 <= i < ms.len(),
        ms[i] matches AgentMessage::Llm(m) && m.content().len() > 0,
    ensures
        ({
            let m = ms[i]->Llm_0;
            let lines = conversation_lines(ms);
            &&& m.role == Role::User ==> lines.contains("[User]: "@ + m.content())
            &&& m.role == Role::Assistant ==> lines.contains("[Assistant]: "@ + m.content())
            &&& m.role == Role::Tool ==> lines.contains(
                "[Tool result]: "@ + spec_truncate(m.content(), TOOL_RESULT_MAX_CHARS as nat),
            )
        }),
{
    lemma_entry_lines_in(ms, i);
    let m = ms[i]->Llm_0;
    let own = entry_lines(ms[i]);
    if m.role == Role::User || m.role == Role::Assistant || m.role == Role::Tool {
        assert(own.len() > 0);
        assert(conversation_lines(ms).contains(own[0]));
    }
}

} // verus!
