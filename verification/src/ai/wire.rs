//! Wire model for the OpenAI-compatible chat endpoint, the mapping between
//! the message model and the wire, SSE event framing, and the mapping of
//! streamed chunks to deltas.
//!
//! Tolerance of the response side: every field is optional or defaulted,
//! `usage` is `None` until the final chunk, and `content` / `name` / `id` may
//! be empty or absent on continuation chunks. The JSON (de)serialisation of
//! these shapes is done around this module, on plain copies of the types.
use vstd::prelude::*;
use crate::ai::llm::{Delta, DeltaView, FinishReason, delta_view, deltas_view};
use crate::ai::message::{Message, Role, ToolCall, opt_view};
use crate::text::{lines, strip_cr, chars_of, eq_chars, join, join_chars, split_chars, split_on, string_of, strs,
    sub_chars, trim, trim_chars, trim_start, trim_start_len, views, prefix_of, starts_with_chars,
    lemma_split_nonempty};

verus! {

broadcast use vstd::seq_lib::group_seq_properties;

// ---------------------------------------------------------------------------
// Response (streaming chunks)
// ---------------------------------------------------------------------------

/// One streamed chunk of the response.
#[derive(Debug)]
pub struct WireChunk {
    pub choices: Vec<WireChoice>,
    pub usage: Option<TokenUsage>,
}

/// One choice of a chunk.
#[derive(Debug)]
pub struct WireChoice {
    pub index: usize,
    pub delta: Option<WireDelta>,
    pub finish_reason: Option<String>,
}

/// The delta a choice carries.
#[derive(Debug)]
pub struct WireDelta {
    pub role: Option<String>,
    pub content: Option<String>,
    pub reasoning_content: Option<String>,
    pub tool_calls: Vec<WireToolCallDelta>,
}

/// One tool-call fragment of a delta. `call_type` is the wire's `type`.
#[derive(Debug)]
pub struct WireToolCallDelta {
    pub index: usize,
    pub id: Option<String>,
    pub call_type: Option<String>,
    pub function: Option<WireFunctionDelta>,
}

/// The function part of a tool-call fragment.
#[derive(Debug)]
pub struct WireFunctionDelta {
    pub name: Option<String>,
    pub arguments: Option<String>,
}

/// Token usage reported by the endpoint (streamed with `include_usage`).
#[derive(Debug, Clone, Copy, PartialEq, Eq, Structural)]
pub struct TokenUsage {
    pub prompt_tokens: u64,
    pub completion_tokens: u64,
    pub total_tokens: u64,
    /// Cache-hit accounting (`usage.prompt_tokens_details`); absent when the
    /// endpoint omits it, and the accessors then report 0.
    pub prompt_tokens_details: Option<PromptTokensDetails>,
}

/// Cache-hit breakdown inside `usage.prompt_tokens_details`; a missing field
/// counts as 0.
#[derive(Debug, Clone, Copy, PartialEq, Eq, Structural)]
pub struct PromptTokensDetails {
    /// Prompt tokens served from the cache (cache hits).
    pub cached_tokens: u64,
    /// Prompt tokens spent creating the cache entry.
    pub cache_creation_input_tokens: u64,
}

impl Default for PromptTokensDetails {
    fn default() -> (d: PromptTokensDetails)
        ensures
            d == (PromptTokensDetails { cached_tokens: 0, cache_creation_input_tokens: 0 }),
    {
        PromptTokensDetails { cached_tokens: 0, cache_creation_input_tokens: 0 }
    }
}

impl Default for TokenUsage {
    fn default() -> (u: TokenUsage)
        ensures
            u == (TokenUsage {
                prompt_tokens: 0,
                completion_tokens: 0,
                total_tokens: 0,
                prompt_tokens_details: None,
            }),
    {
        TokenUsage { prompt_tokens: 0, completion_tokens: 0, total_tokens: 0, prompt_tokens_details: None }
    }
}

impl TokenUsage {
    /// Cached prompt tokens, 0 when absent.
    pub open spec fn spec_cached(self) -> u64 {
        match self.prompt_tokens_details {
            Some(d) => d.cached_tokens,
            None => 0,
        }
    }

    /// Cache-creation prompt tokens, 0 when absent.
    pub open spec fn spec_cache_creation(self) -> u64 {
        match self.prompt_tokens_details {
            Some(d) => d.cache_creation_input_tokens,
            None => 0,
        }
    }

    /// Cached (cache-hit) prompt tokens; `0` when the endpoint omitted the
    /// details.
    pub fn cached_tokens(&self) -> (n: u64)
        ensures
            n == self.spec_cached(),
    {
        match self.prompt_tokens_details {
            Some(d) => d.cached_tokens,
            None => 0,
        }
    }

    /// Prompt tokens spent creating the cache; `0` when details are absent.
    pub fn cache_creation_tokens(&self) -> (n: u64)
        ensures
            n == self.spec_cache_creation(),
    {
        match self.prompt_tokens_details {
            Some(d) => d.cache_creation_input_tokens,
            None => 0,
        }
    }
}

// ---------------------------------------------------------------------------
// Request
// ---------------------------------------------------------------------------

/// `skip_serializing_if` predicate: omit a `false` flag from the request.
pub fn is_false(b: &bool) -> (r: bool)
    ensures
        r == !*b,
{
    !*b
}

/// `stream_options` of a request.
#[derive(Debug, Clone, Copy, PartialEq, Eq, Structural)]
pub struct WireStreamOptions {
    pub include_usage: bool,
}

/// The `content` of a wire message: a plain string, or a list of content
/// blocks (only used for the cache-marked system message).
#[derive(Clone, Debug, PartialEq, Eq)]
pub enum WireContent {
    /// Plain string content.
    Text(String),
    /// Text blocks carrying `cache_control`.
    Blocks(Vec<WireContentBlock>),
}

/// A text content block; `cache_control` marks it as a cache-able prefix.
#[derive(Clone, Debug, PartialEq, Eq)]
pub struct WireContentBlock {
    /// The wire's `type`.
    pub kind: &'static str,
    pub text: String,
    pub cache_control: WireCacheControl,
}

/// The explicit-cache marker (`{"type": "ephemeral"}`).
#[derive(Clone, Debug, PartialEq, Eq)]
pub struct WireCacheControl {
    /// The wire's `type`.
    pub kind: &'static str,
}

/// One message as sent to the endpoint.
#[derive(Debug)]
pub struct WireMessage<'a> {
    pub role: &'a str,
    pub content: Option<WireContent>,
    pub tool_calls: Vec<WireToolCall>,
    pub tool_call_id: Option<&'a str>,
}

/// A tool call as sent back to the endpoint in history.
#[derive(Debug)]
pub struct WireToolCall {
    /// The wire's `type`.
    pub kind: &'static str,
    pub id: String,
    pub function: WireFunction,
}

/// The function part of a wire tool call.
#[derive(Debug)]
pub struct WireFunction {
    pub name: String,
    pub arguments: String,
}

// ---------------------------------------------------------------------------
// Mapping: message model <-> wire
// ---------------------------------------------------------------------------

/// The lowercase wire name of a role.
pub open spec fn role_name(role: Role) -> Seq<char> {
    match role {
        Role::System => "system"@,
        Role::User => "user"@,
        Role::Assistant => "assistant"@,
        Role::Tool => "tool"@,
    }
}

pub fn role_to_wire(role: &Role) -> (s: &'static str)
    ensures
        s@ == role_name(*role),
{
    match role {
        Role::System => "system",
        Role::User => "user",
        Role::Assistant => "assistant",
        Role::Tool => "tool",
    }
}

/// The mathematical value of a wire content.
pub ghost enum ContentView {
    Text(Seq<char>),
    /// `(type, text, cache_control.type)` of each block.
    Blocks(Seq<(Seq<char>, Seq<char>, Seq<char>)>),
}

pub open spec fn block_view(b: WireContentBlock) -> (Seq<char>, Seq<char>, Seq<char>) {
    (b.kind@, b.text@, b.cache_control.kind@)
}

pub open spec fn content_view(c: Option<WireContent>) -> Option<ContentView> {
    match c {
        None => None,
        Some(WireContent::Text(s)) => Some(ContentView::Text(s@)),
        Some(WireContent::Blocks(bs)) => Some(ContentView::Blocks(bs@.map_values(|b: WireContentBlock| block_view(b)))),
    }
}

/// The wire content of a message with role `role`, text `text`, whether it
/// carries tool calls, and the cache flag: a tool-call assistant message
/// sends an empty string; a tool message always sends its text; empty text
/// is omitted; with `cache` on, a system message sends one cache-marked
/// block; everything else is a plain string.
pub open spec fn wire_content(role: Role, text: Seq<char>, has_tool_calls: bool, cache: bool) -> Option<ContentView> {
    if role == Role::Assistant && has_tool_calls {
        Some(ContentView::Text(Seq::empty()))
    } else if role == Role::Tool {
        Some(ContentView::Text(text))
    } else if text.len() == 0 {
        None
    } else if cache && role == Role::System {
        Some(ContentView::Blocks(seq![("text"@, text, "ephemeral"@)]))
    } else {
        Some(ContentView::Text(text))
    }
}

/// `(type, id, name, arguments)` of a wire tool call.
pub open spec fn wire_call_view(w: WireToolCall) -> (Seq<char>, Seq<char>, Seq<char>, Seq<char>) {
    (w.kind@, w.id@, w.function.name@, w.function.arguments@)
}

/// The wire form of a message's tool calls: each a `function` call carrying
/// the same id, name and arguments.
pub open spec fn wire_calls(tcs: Seq<ToolCall>) -> Seq<(Seq<char>, Seq<char>, Seq<char>, Seq<char>)> {
    tcs.map_values(|tc: ToolCall| ("function"@, tc.id@, tc.name@, tc.arguments@))
}

pub open spec fn opt_str_view(o: Option<&str>) -> Option<Seq<char>> {
    match o {
        Some(s) => Some(s@),
        None => None,
    }
}

/// Map one message to the wire shape. With `cache` on, the system message's
/// content is a one-block array carrying `cache_control`; every other message
/// keeps the plain-string shape. `stop_reason` and `error` never reach the
/// wire.
pub fn message_to_wire(m: &Message, cache: bool) -> (w: WireMessage<'_>)
    ensures
        w.role@ == role_name(m.role),
        content_view(w.content) == wire_content(m.role, m.content(), m.tool_calls@.len() > 0, cache),
        w.tool_calls@.map_values(|c: WireToolCall| wire_call_view(c)) == wire_calls(m.tool_calls@),
        opt_str_view(w.tool_call_id) == opt_view(m.tool_call_id),
{
    let role = role_to_wire(&m.role);
    let text = m.text_content();
    let has_tool_calls = m.tool_calls.len() > 0;
    let content = if m.role == Role::Assistant && has_tool_calls {
        Some(WireContent::Text(String::new()))
    } else if m.role == Role::Tool {
        Some(WireContent::Text(text))
    } else if text.as_str().is_empty() {
        None
    } else if cache && m.role == Role::System {
        let block = WireContentBlock {
            kind: "text",
            text,
            cache_control: WireCacheControl { kind: "ephemeral" },
        };
        let blocks = vec![block];
        assert(blocks@.map_values(|b: WireContentBlock| block_view(b)) == seq![block_view(block)]);
        Some(WireContent::Blocks(blocks))
    } else {
        Some(WireContent::Text(text))
    };
    let mut tool_calls: Vec<WireToolCall> = Vec::new();
    let mut i: usize = 0;
    while i < m.tool_calls.len()
        invariant
            i <= m.tool_calls@.len(),
            tool_calls@.map_values(|c: WireToolCall| wire_call_view(c)) == wire_calls(m.tool_calls@.subrange(0, i as int)),
        decreases m.tool_calls.len() - i,
    {
        let tc = &m.tool_calls[i];
        let w = WireToolCall {
            kind: "function",
            id: tc.id.clone(),
            function: WireFunction { name: tc.name.clone(), arguments: tc.arguments.clone() },
        };
        let ghost before = tool_calls@;
        tool_calls.push(w);
        assert(tool_calls@.map_values(|c: WireToolCall| wire_call_view(c)) == before.map_values(
            |c: WireToolCall| wire_call_view(c),
        ).push(wire_call_view(w)));
        assert(m.tool_calls@.subrange(0, i + 1) == m.tool_calls@.subrange(0, i as int).push(m.tool_calls@[i as int]));
        i = i + 1;
    }
    assert(m.tool_calls@.subrange(0, m.tool_calls@.len() as int) == m.tool_calls@);
    let tool_call_id: Option<&str> = match &m.tool_call_id {
        Some(s) => Some(s.as_str()),
        None => None,
    };
    WireMessage { role, content, tool_calls, tool_call_id }
}

// ---------------------------------------------------------------------------
// SSE parsing + chunk -> Delta
// ---------------------------------------------------------------------------

/// One line of the SSE framer over `(events, pending data lines)`: a `data:`
/// line adds its payload (leading whitespace dropped); a blank line closes a
/// pending event, its data lines joined with `\n`; anything else is ignored.
pub open spec fn sse_step(state: (Seq<Seq<char>>, Seq<Seq<char>>), line: Seq<char>) -> (Seq<Seq<char>>, Seq<Seq<char>>) {
    if prefix_of("data:"@, line) {
        (state.0, state.1.push(trim_start(line.subrange("data:"@.len() as int, line.len() as int))))
    } else if trim(line).len() == 0 && state.1.len() > 0 {
        (state.0.push(join(state.1, seq!['\n'])), Seq::empty())
    } else {
        state
    }
}

pub open spec fn sse_fold(ls: Seq<Seq<char>>) -> (Seq<Seq<char>>, Seq<Seq<char>>)
    decreases ls.len(),
{
    if ls.len() == 0 {
        (Seq::empty(), Seq::empty())
    } else {
        sse_step(sse_fold(ls.drop_last()), ls.last())
    }
}

/// The `data:` event payloads of an SSE body; a pending event at the end of
/// the body counts too.
pub open spec fn sse_events(body: Seq<char>) -> Seq<Seq<char>> {
    let st = sse_fold(lines(body));
    if st.1.len() > 0 {
        st.0.push(join(st.1, seq!['\n']))
    } else {
        st.0
    }
}

/// The char sequences of a list of strings.
pub open spec fn string_views(v: Seq<String>) -> Seq<Seq<char>> {
    v.map_values(|s: String| s@)
}

fn strip_cr_chars(p: &Vec<char>) -> (r: Vec<char>)
    ensures
        r@ == strip_cr(p@),
{
    if p.len() > 0 && p[p.len() - 1] == '\r' {
        sub_chars(p, 0, p.len() - 1)
    } else {
        sub_chars(p, 0, p.len())
    }
}

/// Split an SSE body into its `data:` event payloads (joined across
/// multi-line `data:` sequences). `[DONE]` markers are included verbatim.
pub fn parse_sse_events(body: &str) -> (events: Vec<String>)
    ensures
        string_views(events@) == sse_events(body@),
{
    let cs = chars_of(body);
    let parts = split_chars(&cs, '\n');
    let n = parts.len();
    let last_empty = parts[n - 1].len() == 0;
    let count = if last_empty { n - 1 } else { n };
    let ghost ls = lines(body@);
    proof {
        assert(views(parts@).last() == parts@[n - 1]@);
        assert(ls.len() == count);
    }
    let data = chars_of("data:");
    let sep: Vec<char> = vec!['\n'];
    assert(sep@ == seq!['\n']);
    let mut events: Vec<String> = Vec::new();
    let mut cur: Vec<Vec<char>> = Vec::new();
    let mut i: usize = 0;
    while i < count
        invariant
            i <= count,
            count <= n,
            n == parts@.len(),
            views(parts@) == split_on(body@, '\n'),
            ls == lines(body@),
            ls.len() == count,
            count == n || (count == n - 1 && parts@[n - 1]@.len() == 0),
            count == n ==> parts@[n - 1]@.len() > 0,
            data@ == "data:"@,
            sep@ == seq!['\n'],
            (string_views(events@), views(cur@)) == sse_fold(ls.subrange(0, i as int)),
        decreases count - i,
    {
        let line = if i + 1 < n { strip_cr_chars(&parts[i]) } else { sub_chars(&parts[i], 0, parts[i].len()) };
        proof {
            assert(views(parts@)[i as int] == parts@[i as int]@);
            if i + 1 < n {
                assert(split_on(body@, '\n').drop_last()[i as int] == parts@[i as int]@);
            }
            assert(line@ == ls[i as int]);
            assert(ls.subrange(0, i + 1).drop_last() == ls.subrange(0, i as int));
        }
        let ghost before = (string_views(events@), views(cur@));
        if starts_with_chars(&line, &data) {
            let rest = sub_chars(&line, data.len(), line.len());
            let b = trim_start_len(&rest);
            let payload = sub_chars(&rest, b, rest.len());
            let ghost old_cur = cur@;
            cur.push(payload);
            assert(views(cur@) == views(old_cur).push(payload@));
        } else {
            let t = trim_chars(&line);
            if t.len() == 0 && cur.len() > 0 {
                let joined = join_chars(&cur, &sep);
                let ghost old_events = events@;
                events.push(string_of(&joined));
                assert(string_views(events@) == string_views(old_events).push(joined@));
                cur = Vec::new();
                assert(views(cur@) == Seq::<Seq<char>>::empty());
            }
        }
        i = i + 1;
    }
    assert(ls.subrange(0, count as int) == ls);
    if cur.len() > 0 {
        let joined = join_chars(&cur, &sep);
        let ghost old_events = events@;
        events.push(string_of(&joined));
        assert(string_views(events@) == string_views(old_events).push(joined@));
    }
    events
}

/// The chars of an optional string, empty when absent.
pub open spec fn opt_or_empty(o: Option<String>) -> Seq<char> {
    match o {
        Some(s) => s@,
        None => Seq::empty(),
    }
}

/// The deltas of one tool-call fragment: a start when it names the function,
/// then its arguments when they are non-empty.
pub open spec fn fragment_deltas(tc: WireToolCallDelta) -> Seq<DeltaView> {
    let name: Option<Seq<char>> = match tc.function {
        Some(f) => opt_view(f.name),
        None => None,
    };
    let args: Seq<char> = match tc.function {
        Some(f) => opt_or_empty(f.arguments),
        None => Seq::empty(),
    };
    (match name {
        Some(n) => seq![DeltaView::ToolCallStart { index: tc.index, id: opt_or_empty(tc.id), name: n }],
        None => Seq::empty(),
    }) + (if args.len() > 0 {
        seq![DeltaView::ToolCallArgs { index: tc.index, fragment: args }]
    } else {
        Seq::empty()
    })
}

pub open spec fn fragments_deltas(tcs: Seq<WireToolCallDelta>) -> Seq<DeltaView>
    decreases tcs.len(),
{
    if tcs.len() == 0 {
        Seq::empty()
    } else {
        fragments_deltas(tcs.drop_last()) + fragment_deltas(tcs.last())
    }
}

/// The deltas of a choice's delta body: reasoning, then text (each only when
/// non-empty), then the tool-call fragments in order.
pub open spec fn body_deltas(d: WireDelta) -> Seq<DeltaView> {
    (if opt_or_empty(d.reasoning_content).len() > 0 {
        seq![DeltaView::Reasoning(opt_or_empty(d.reasoning_content))]
    } else {
        Seq::empty()
    }) + (if opt_or_empty(d.content).len() > 0 {
        seq![DeltaView::Text(opt_or_empty(d.content))]
    } else {
        Seq::empty()
    }) + fragments_deltas(d.tool_calls@)
}

/// `tool_calls` finishes with tool calls; any other reason is a stop.
pub open spec fn finish_of(fr: Seq<char>) -> FinishReason {
    if fr == "tool_calls"@ {
        FinishReason::ToolCalls
    } else {
        FinishReason::Stop
    }
}

pub open spec fn choice_deltas(ch: WireChoice) -> Seq<DeltaView> {
    (match ch.delta {
        Some(d) => body_deltas(d),
        None => Seq::empty(),
    }) + (match ch.finish_reason {
        Some(fr) => seq![DeltaView::Done(finish_of(fr@))],
        None => Seq::empty(),
    })
}

pub open spec fn choices_deltas(chs: Seq<WireChoice>) -> Seq<DeltaView>
    decreases chs.len(),
{
    if chs.len() == 0 {
        Seq::empty()
    } else {
        choices_deltas(chs.drop_last()) + choice_deltas(chs.last())
    }
}

fn push_delta(out: &mut Vec<Delta>, d: Delta)
    ensures
        deltas_view(final(out)@) == deltas_view(old(out)@).push(delta_view(d)),
{
    out.push(d);
}

fn push_fragment(out: &mut Vec<Delta>, tc: &WireToolCallDelta)
    ensures
        deltas_view(final(out)@) == deltas_view(old(out)@) + fragment_deltas(*tc),
{
    let ghost start = deltas_view(out@);
    let (name, args): (Option<String>, String) = match &tc.function {
        Some(f) => (
            match &f.name {
                Some(n) => Some(n.clone()),
                None => None,
            },
            match &f.arguments {
                Some(a) => a.clone(),
                None => String::new(),
            },
        ),
        None => (None, String::new()),
    };
    match name {
        Some(n) => {
            let id = match &tc.id {
                Some(i) => i.clone(),
                None => String::new(),
            };
            push_delta(out, Delta::ToolCallStart { index: tc.index, id, name: n });
        },
        None => {},
    }
    let ghost mid = deltas_view(out@);
    if !args.as_str().is_empty() {
        push_delta(out, Delta::ToolCallArgs { index: tc.index, fragment: args });
    }
    assert(deltas_view(out@) == start + fragment_deltas(*tc));
}

fn push_choice(out: &mut Vec<Delta>, ch: &WireChoice)
    ensures
        deltas_view(final(out)@) == deltas_view(old(out)@) + choice_deltas(*ch),
{
    let ghost start = deltas_view(out@);
    match &ch.delta {
        Some(d) => {
            match &d.reasoning_content {
                Some(rc) => {
                    if !rc.as_str().is_empty() {
                        push_delta(out, Delta::Reasoning(rc.clone()));
                    }
                },
                None => {},
            }
            match &d.content {
                Some(c) => {
                    if !c.as_str().is_empty() {
                        push_delta(out, Delta::Text(c.clone()));
                    }
                },
                None => {},
            }
            let ghost after_text = deltas_view(out@);
            let mut k: usize = 0;
            while k < d.tool_calls.len()
                invariant
                    k <= d.tool_calls@.len(),
                    deltas_view(out@) == after_text + fragments_deltas(d.tool_calls@.subrange(0, k as int)),
                decreases d.tool_calls.len() - k,
            {
                push_fragment(out, &d.tool_calls[k]);
                assert(d.tool_calls@.subrange(0, k + 1).drop_last() == d.tool_calls@.subrange(0, k as int));
                k = k + 1;
            }
            assert(d.tool_calls@.subrange(0, d.tool_calls@.len() as int) == d.tool_calls@);
            assert(deltas_view(out@) == start + body_deltas(*d));
        },
        None => {},
    }
    let ghost after_body = deltas_view(out@);
    match &ch.finish_reason {
        Some(fr) => {
            let is_tools = eq_chars(&chars_of(fr.as_str()), &chars_of("tool_calls"));
            let finish = if is_tools {
                FinishReason::ToolCalls
            } else {
                FinishReason::Stop
            };
            push_delta(out, Delta::Done(finish));
        },
        None => {},
    }
    assert(deltas_view(out@) == start + choice_deltas(*ch));
}

/// Map one wire chunk's choices to deltas. Empty strings and nulls are
/// skipped; `finish_reason` maps to `Done`.
pub fn chunk_to_deltas(chunk: &WireChunk) -> (out: Vec<Delta>)
    ensures
        deltas_view(out@) == choices_deltas(chunk.choices@),
{
    let mut out: Vec<Delta> = Vec::new();
    let mut i: usize = 0;
    while i < chunk.choices.len()
        invariant
            i <= chunk.choices@.len(),
            deltas_view(out@) == choices_deltas(chunk.choices@.subrange(0, i as int)),
        decreases chunk.choices.len() - i,
    {
        push_choice(&mut out, &chunk.choices[i]);
        assert(chunk.choices@.subrange(0, i + 1).drop_last() == chunk.choices@.subrange(0, i as int));
        i = i + 1;
    }
    assert(chunk.choices@.subrange(0, chunk.choices@.len() as int) == chunk.choices@);
    out
}

/// Result of parsing a full SSE stream: the ordered deltas plus the token
/// usage carried by the final chunk (present when `include_usage` was set).
#[derive(Debug)]
pub struct ParsedStream {
    pub deltas: Vec<Delta>,
    pub usage: Option<TokenUsage>,
}

/// The concatenated deltas of a sequence of chunks.
pub open spec fn chunks_deltas(chunks: Seq<WireChunk>) -> Seq<DeltaView>
    decreases chunks.len(),
{
    if chunks.len() == 0 {
        Seq::empty()
    } else {
        chunks_deltas(chunks.drop_last()) + choices_deltas(chunks.last().choices@)
    }
}

/// The usage of the last chunk that carries one, starting from `init`.
pub open spec fn last_usage(init: Option<TokenUsage>, chunks: Seq<WireChunk>) -> Option<TokenUsage>
    decreases chunks.len(),
{
    if chunks.len() == 0 {
        init
    } else if chunks.last().usage is Some {
        chunks.last().usage
    } else {
        last_usage(init, chunks.drop_last())
    }
}

/// Is this event the end-of-stream marker `[DONE]`?
pub fn is_done_marker(event: &str) -> (b: bool)
    ensures
        b == (event@ == "[DONE]"@),
{
    eq_chars(&chars_of(event), &chars_of("[DONE]"))
}

impl ParsedStream {
    /// An empty parse: no deltas, no usage.
    pub fn new() -> (p: ParsedStream)
        ensures
            p.deltas@.len() == 0,
            p.usage is None,
    {
        ParsedStream { deltas: Vec::new(), usage: None }
    }

    /// Take in one parsed chunk: its deltas follow the ones before, and a
    /// usage it carries replaces the one recorded.
    pub fn absorb(&mut self, chunk: &WireChunk)
        ensures
            deltas_view(final(self).deltas@) == deltas_view(old(self).deltas@) + choices_deltas(chunk.choices@),
            final(self).usage == (if chunk.usage is Some {
                chunk.usage
            } else {
                old(self).usage
            }),
    {
        let mut ds = chunk_to_deltas(chunk);
        self.deltas.append(&mut ds);
        if chunk.usage.is_some() {
            self.usage = chunk.usage;
        }
    }
}

/// The parse of a stream whose chunks, in order, are `chunks`: all their
/// deltas in order, and the usage of the last chunk that carried one.
pub fn collect_chunks(chunks: &Vec<WireChunk>) -> (p: ParsedStream)
    ensures
        deltas_view(p.deltas@) == chunks_deltas(chunks@),
        p.usage == last_usage(None, chunks@),
{
    let mut p = ParsedStream::new();
    let mut i: usize = 0;
    while i < chunks.len()
        invariant
            i <= chunks@.len(),
            deltas_view(p.deltas@) == chunks_deltas(chunks@.subrange(0, i as int)),
            p.usage == last_usage(None, chunks@.subrange(0, i as int)),
        decreases chunks.len() - i,
    {
        p.absorb(&chunks[i]);
        assert(chunks@.subrange(0, i + 1).drop_last() == chunks@.subrange(0, i as int));
        i = i + 1;
    }
    assert(chunks@.subrange(0, chunks@.len() as int) == chunks@);
    p
}

/// Is there a blank line ending at `i` in a byte stream (a `\n` right after
/// a line break, `\n` or `\r\n`)?
pub open spec fn blank_line_ends_at(b: Seq<u8>, i: int) -> bool {
    &&& 2 <= i <= b.len()
    &&& b[i - 1] == 10u8
    &&& (b[i - 2] == 10u8 || (i >= 3 && b[i - 2] == 13u8 && b[i - 3] == 10u8))
}

/// The length of the complete part of a streamed SSE body: everything up to
/// its last blank line, which closes the last complete event; what follows
/// is an event still arriving.
pub open spec fn complete_len(b: Seq<u8>) -> nat
    decreases b.len(),
{
    if b.len() == 0 {
        0
    } else if blank_line_ends_at(b, b.len() as int) {
        b.len()
    } else {
        complete_len(b.drop_last())
    }
}

/// How much of the bytes received so far holds complete SSE events (see
/// [`complete_len`]). A read that is cancelled stops at this boundary, so an
/// event cut off by the cancel is never delivered; at the end of a body
/// that completed, the rest is delivered too.
pub fn complete_prefix_len(b: &[u8]) -> (n: usize)
    ensures
        n == complete_len(b@),
        n <= b@.len(),
{
    let mut k = b.len();
    assert(b@.subrange(0, k as int) == b@);
    while k > 0
        invariant
            k <= b@.len(),
            complete_len(b@) == complete_len(b@.subrange(0, k as int)),
        decreases k,
    {
        let ghost p = b@.subrange(0, k as int);
        assert(p.drop_last() == b@.subrange(0, k - 1));
        let blank = k >= 2 && b[k - 1] == 10u8 && (b[k - 2] == 10u8 || (k >= 3 && b[k - 2] == 13u8 && b[k - 3]
            == 10u8));
        assert(blank == blank_line_ends_at(p, k as int));
        if blank {
            return k;
        }
        k = k - 1;
    }
    0
}

} // verus!
