//! The agent runtime: the message/session model, the pure parts of the turn
//! loop (reassembling an assistant message from a delta stream, appending a
//! tool result), and the tools' logic (the text `edit` engine and line
//! slicing).
//!
//! Deltas mirror the live wire: reasoning before content; a tool call starts
//! with `ToolCallStart` (id + name) followed by `ToolCallArgs` fragments;
//! `assemble` re-joins them. Tool errors reach the model as a `tool` message
//! prefixed `Error: ` so it can recover.
pub mod edit;
pub mod files;
pub mod session;

use vstd::prelude::*;
pub use crate::ai::llm::{Delta, DeltaView, FinishReason, delta_view, deltas_view};
use crate::ai::message::{call_view, calls_view};
use crate::agent::session::{Message, Role, ToolCall};
use crate::text::push_str;

verus! {

broadcast use vstd::seq_lib::group_seq_properties;

/// A tool call as `(id, name, arguments)`.
pub open spec fn call_of(id: Seq<char>, name: Seq<char>, arguments: Seq<char>) -> (Seq<char>, Seq<char>, Seq<char>) {
    (id, name, arguments)
}

/// The concatenated assistant text of a delta stream (reasoning is dropped).
pub open spec fn text_of(ds: Seq<DeltaView>) -> Seq<char>
    decreases ds.len(),
{
    if ds.len() == 0 {
        Seq::empty()
    } else {
        text_of(ds.drop_last()) + match ds.last() {
            DeltaView::Text(t) => t,
            _ => Seq::empty(),
        }
    }
}

/// The finish reason of the last `Done` delta; `Stop` when there is none.
pub open spec fn reason_of(ds: Seq<DeltaView>) -> FinishReason
    decreases ds.len(),
{
    if ds.len() == 0 {
        FinishReason::Stop
    } else {
        match ds.last() {
            DeltaView::Done(r) => r,
            _ => reason_of(ds.drop_last()),
        }
    }
}

/// The tool calls of a delta stream, by index: the first start of an index
/// fixes its id and name; an arguments fragment extends the arguments of a
/// call already started at its index and is dropped otherwise.
pub open spec fn calls_of(ds: Seq<DeltaView>) -> Map<usize, (Seq<char>, Seq<char>, Seq<char>)>
    decreases ds.len(),
{
    if ds.len() == 0 {
        Map::empty()
    } else {
        let m = calls_of(ds.drop_last());
        match ds.last() {
            DeltaView::ToolCallStart { index, id, name } => if m.dom().contains(index) {
                m
            } else {
                m.insert(index, call_of(id, name, Seq::empty()))
            },
            DeltaView::ToolCallArgs { index, fragment } => if m.dom().contains(index) {
                m.insert(index, call_of(m[index].0, m[index].1, m[index].2 + fragment))
            } else {
                m
            },
            _ => m,
        }
    }
}

/// `calls` holds the entries of `m` in increasing order of the keys `keys`.
pub open spec fn in_key_order(
    keys: Seq<usize>,
    calls: Seq<(Seq<char>, Seq<char>, Seq<char>)>,
    m: Map<usize, (Seq<char>, Seq<char>, Seq<char>)>,
) -> bool {
    &&& keys.len() == calls.len()
    &&& forall|i: int, j: int| 0 <= i < j < keys.len() ==> #[trigger] keys[i] < #[trigger] keys[j]
    &&& forall|i: int| 0 <= i < keys.len() ==> m.dom().contains(#[trigger] keys[i]) && calls[i] == m[keys[i]]
    &&& forall|k: usize| m.dom().contains(k) ==> keys.contains(k)
}

/// `calls` lists the values of `m` ordered by key.
pub open spec fn ordered_values(
    calls: Seq<(Seq<char>, Seq<char>, Seq<char>)>,
    m: Map<usize, (Seq<char>, Seq<char>, Seq<char>)>,
) -> bool {
    exists|keys: Seq<usize>| in_key_order(keys, calls, m)
}

proof fn lemma_key_absent(
    keys: Seq<usize>,
    calls: Seq<(Seq<char>, Seq<char>, Seq<char>)>,
    m: Map<usize, (Seq<char>, Seq<char>, Seq<char>)>,
    p: int,
    k: usize,
)
    requires
        in_key_order(keys, calls, m),
        0 <= p <= keys.len(),
        forall|q: int| 0 <= q < p ==> keys[q] < k,
        p < keys.len() ==> k < keys[p],
    ensures
        !m.dom().contains(k),
{
    if m.dom().contains(k) {
        assert(keys.contains(k));
        let q = choose|q: int| 0 <= q < keys.len() && keys[q] == k;
        if q >= p && p < keys.len() {
            if q > p {
                assert(keys[p] < keys[q]);
            }
        }
    }
}

proof fn lemma_insert_key(
    keys: Seq<usize>,
    calls: Seq<(Seq<char>, Seq<char>, Seq<char>)>,
    m: Map<usize, (Seq<char>, Seq<char>, Seq<char>)>,
    p: int,
    k: usize,
    v: (Seq<char>, Seq<char>, Seq<char>),
)
    requires
        in_key_order(keys, calls, m),
        0 <= p <= keys.len(),
        forall|q: int| 0 <= q < p ==> keys[q] < k,
        p < keys.len() ==> k < keys[p],
    ensures
        in_key_order(keys.insert(p, k), calls.insert(p, v), m.insert(k, v)),
{
    lemma_key_absent(keys, calls, m, p, k);
    let ks = keys.insert(p, k);
    let cs = calls.insert(p, v);
    let m2 = m.insert(k, v);
    assert forall|i: int, j: int| 0 <= i < j < ks.len() implies #[trigger] ks[i] < #[trigger] ks[j] by {
        if j < p {
            assert(ks[i] == keys[i] && ks[j] == keys[j]);
        } else if j == p {
            assert(ks[i] == keys[i]);
        } else if i < p {
            assert(ks[i] == keys[i] && ks[j] == keys[j - 1]);
            assert(keys[p] <= keys[j - 1]) by {
                if p < j - 1 {
                    assert(keys[p] < keys[j - 1]);
                }
            }
        } else if i == p {
            assert(ks[j] == keys[j - 1]);
            assert(keys[p] <= keys[j - 1]) by {
                if p < j - 1 {
                    assert(keys[p] < keys[j - 1]);
                }
            }
        } else {
            assert(ks[i] == keys[i - 1] && ks[j] == keys[j - 1]);
        }
    }
    assert forall|i: int| 0 <= i < ks.len() implies m2.dom().contains(#[trigger] ks[i]) && cs[i] == m2[ks[i]] by {
        if i < p {
            assert(ks[i] == keys[i] && cs[i] == calls[i]);
            assert(m.dom().contains(keys[i]));
        } else if i > p {
            assert(ks[i] == keys[i - 1] && cs[i] == calls[i - 1]);
            assert(m.dom().contains(keys[i - 1]));
        }
    }
    assert forall|x: usize| m2.dom().contains(x) implies ks.contains(x) by {
        if x == k {
            assert(ks[p] == k);
        } else {
            assert(keys.contains(x));
            let q = choose|q: int| 0 <= q < keys.len() && keys[q] == x;
            if q < p {
                assert(ks[q] == x);
            } else {
                assert(ks[q + 1] == x);
            }
        }
    }
}

proof fn lemma_update_key(
    keys: Seq<usize>,
    calls: Seq<(Seq<char>, Seq<char>, Seq<char>)>,
    m: Map<usize, (Seq<char>, Seq<char>, Seq<char>)>,
    p: int,
    v: (Seq<char>, Seq<char>, Seq<char>),
)
    requires
        in_key_order(keys, calls, m),
        0 <= p < keys.len(),
    ensures
        in_key_order(keys, calls.update(p, v), m.insert(keys[p], v)),
{
    let cs = calls.update(p, v);
    let m2 = m.insert(keys[p], v);
    assert forall|i: int| 0 <= i < keys.len() implies m2.dom().contains(#[trigger] keys[i]) && cs[i] == m2[keys[i]] by {
        if i != p {
            if i < p {
                assert(keys[i] < keys[p]);
            } else {
                assert(keys[p] < keys[i]);
            }
        }
    }
}

/// Reassemble an assistant message from a delta stream: the concatenated
/// text (reasoning is dropped), the tool calls in increasing index order, and
/// the finish reason of the last `Done` (`Stop` when there is none).
pub fn assemble(deltas: &[Delta]) -> (r: (String, Vec<ToolCall>, FinishReason))
    ensures
        r.0@ == text_of(deltas_view(deltas@)),
        ordered_values(calls_view(r.1@), calls_of(deltas_view(deltas@))),
        r.2 == reason_of(deltas_view(deltas@)),
{
    let ghost dv = deltas_view(deltas@);
    let mut text = String::new();
    let mut keys: Vec<usize> = Vec::new();
    let mut calls: Vec<ToolCall> = Vec::new();
    let mut reason = FinishReason::Stop;
    let mut i: usize = 0;
    while i < deltas.len()
        invariant
            i <= deltas@.len(),
            dv == deltas_view(deltas@),
            text@ == text_of(dv.subrange(0, i as int)),
            reason == reason_of(dv.subrange(0, i as int)),
            in_key_order(keys@, calls_view(calls@), calls_of(dv.subrange(0, i as int))),
        decreases deltas.len() - i,
    {
        let ghost m = calls_of(dv.subrange(0, i as int));
        assert(dv.subrange(0, i + 1).drop_last() == dv.subrange(0, i as int));
        assert(dv.subrange(0, i + 1).last() == delta_view(deltas@[i as int]));
        match &deltas[i] {
            Delta::Text(t) => {
                push_str(&mut text, t.as_str());
            },
            Delta::Reasoning(_) => {},
            Delta::ToolCallStart { index, id, name } => {
                let mut p: usize = 0;
                while p < keys.len() && keys[p] < *index
                    invariant
                        p <= keys@.len(),
                        forall|q: int| 0 <= q < p ==> keys@[q] < *index,
                    decreases keys.len() - p,
                {
                    p = p + 1;
                }
                if p < keys.len() && keys[p] == *index {
                    assert(m.dom().contains(*index));
                } else {
                    let tc = ToolCall { id: id.clone(), name: name.clone(), arguments: String::new() };
                    proof {
                        lemma_insert_key(keys@, calls_view(calls@), m, p as int, *index, call_view(tc));
                        lemma_key_absent(keys@, calls_view(calls@), m, p as int, *index);
                    }
                    let ghost old_calls = calls@;
                    keys.insert(p, *index);
                    calls.insert(p, tc);
                    assert(calls_view(calls@) == calls_view(old_calls).insert(p as int, call_view(tc)));
                }
            },
            Delta::ToolCallArgs { index, fragment } => {
                let mut p: usize = 0;
                while p < keys.len() && keys[p] < *index
                    invariant
                        p <= keys@.len(),
                        forall|q: int| 0 <= q < p ==> keys@[q] < *index,
                    decreases keys.len() - p,
                {
                    p = p + 1;
                }
                if p < keys.len() && keys[p] == *index {
                    let ghost old_calls = calls@;
                    let mut tc = calls.remove(p);
                    push_str(&mut tc.arguments, fragment.as_str());
                    calls.insert(p, tc);
                    proof {
                        assert(calls@ == old_calls.update(p as int, tc));
                        assert(calls_view(calls@) == calls_view(old_calls).update(p as int, call_view(tc)));
                        assert(m[*index] == calls_view(old_calls)[p as int]);
                        lemma_update_key(keys@, calls_view(old_calls), m, p as int, call_view(tc));
                    }
                } else {
                    proof {
                        lemma_key_absent(keys@, calls_view(calls@), m, p as int, *index);
                    }
                }
            },
            Delta::Done(fr) => {
                reason = *fr;
            },
        }
        i = i + 1;
    }
    assert(dv.subrange(0, deltas@.len() as int) == dv);
    (text, calls, reason)
}

/// How a run ended.
#[derive(Clone, Copy, Debug, PartialEq, Eq, Structural)]
pub enum StopReason {
    /// The model produced a final answer with no tool calls.
    Completed,
    /// Hit the iteration cap before the model finished.
    MaxIterations,
}

/// Every observable thing the runtime emits during a run.
#[derive(Clone, Debug)]
pub enum AgentEvent {
    Turn { turn: usize },
    /// Raw delta, forwarded live so a frontend can stream text.
    Stream(Delta),
    ToolStart { name: String, arguments: String },
    ToolResult { name: String, ok: bool, result: String },
    Stop(StopReason),
}

/// Knobs of a run.
#[derive(Clone, Debug)]
pub struct RunConfig {
    pub max_iterations: usize,
    /// Execute multiple tool calls from one response together, or one at a
    /// time (appending results as they come).
    pub parallel_tools: bool,
}

impl Default for RunConfig {
    /// Ten iterations, serial tools.
    fn default() -> (c: RunConfig)
        ensures
            c.max_iterations == 10,
            !c.parallel_tools,
    {
        RunConfig { max_iterations: 10, parallel_tools: false }
    }
}

/// What a run hands back.
#[derive(Debug)]
pub struct RunResult {
    pub messages: Vec<Message>,
    pub iterations: usize,
    pub stop: StopReason,
    pub events: Vec<AgentEvent>,
}

/// The mathematical value of an event: its strings as char sequences.
pub ghost enum EventView {
    Turn { turn: usize },
    Stream(DeltaView),
    ToolStart { name: Seq<char>, arguments: Seq<char> },
    ToolResult { name: Seq<char>, ok: bool, result: Seq<char> },
    Stop(StopReason),
}

pub open spec fn event_view(e: AgentEvent) -> EventView {
    match e {
        AgentEvent::Turn { turn } => EventView::Turn { turn },
        AgentEvent::Stream(d) => EventView::Stream(delta_view(d)),
        AgentEvent::ToolStart { name, arguments } => EventView::ToolStart { name: name@, arguments: arguments@ },
        AgentEvent::ToolResult { name, ok, result } => EventView::ToolResult { name: name@, ok, result: result@ },
        AgentEvent::Stop(s) => EventView::Stop(s),
    }
}

pub open spec fn events_view(es: Seq<AgentEvent>) -> Seq<EventView> {
    es.map_values(|e: AgentEvent| event_view(e))
}

/// The text a tool result contributes to history: the output as is, or the
/// error prefixed `Error: `.
pub open spec fn result_text(res: Result<String, String>) -> Seq<char> {
    match res {
        Ok(o) => o@,
        Err(e) => "Error: "@ + e@,
    }
}

/// Append one tool result to history, emitting `ToolStart` / `ToolResult`
/// events. `tc` is the tool call this result belongs to; the history gets a
/// tool message answering `tc.id`.
pub fn push_tool_result(tc: &ToolCall, res: Result<String, String>, events: &mut Vec<AgentEvent>, messages: &mut Vec<Message>)
    ensures
        events_view(final(events)@) == events_view(old(events)@) + seq![
            EventView::ToolStart { name: tc.name@, arguments: tc.arguments@ },
            EventView::ToolResult {
                name: tc.name@,
                ok: res is Ok,
                result: match res {
                    Ok(o) => o@,
                    Err(e) => e@,
                },
            },
        ],
        final(messages)@.len() == old(messages)@.len() + 1,
        final(messages)@.subrange(0, old(messages)@.len() as int) == old(messages)@,
        final(messages)@.last().role == Role::Tool,
        final(messages)@.last().content() == result_text(res),
        final(messages)@.last().tool_calls@.len() == 0,
        final(messages)@.last().tool_call_id matches Some(i) && i@ == tc.id@,
{
    let ghost r0 = res;
    let (ok, body) = match res {
        Ok(o) => (true, o),
        Err(e) => (false, e),
    };
    let ghost ev0 = events@;
    events.push(AgentEvent::ToolStart { name: tc.name.clone(), arguments: tc.arguments.clone() });
    events.push(AgentEvent::ToolResult { name: tc.name.clone(), ok, result: body.clone() });
    assert(events_view(events@) == events_view(ev0) + seq![event_view(events@[ev0.len() as int]), event_view(events@[ev0.len() as int + 1])]);
    let content = if ok {
        body
    } else {
        let mut c = String::from_str("Error: ");
        push_str(&mut c, body.as_str());
        c
    };
    messages.push(Message::tool_result(tc.id.as_str(), content.as_str()));
}

/// The text an unknown tool reports back to the model.
pub open spec fn unknown_tool_text(name: Seq<char>) -> Seq<char> {
    "unknown tool: "@ + name
}

/// The error a call of a tool that is not registered gets.
pub fn unknown_tool_error(name: &str) -> (e: String)
    ensures
        e@ == unknown_tool_text(name@),
{
    let mut e = String::from_str("unknown tool: ");
    push_str(&mut e, name);
    e
}

/// The error a call whose arguments are not JSON gets.
pub fn invalid_arguments_error(name: &str, detail: &str) -> (e: String)
    ensures
        e@ == "invalid tool arguments for "@ + name@ + ": "@ + detail@,
{
    let mut e = String::from_str("invalid tool arguments for ");
    push_str(&mut e, name);
    push_str(&mut e, ": ");
    push_str(&mut e, detail);
    e
}

/// The position of the first registered tool named `name`.
pub fn find_tool(names: &[String], name: &str) -> (r: Option<usize>)
    ensures
        match r {
            Some(i) => i < names@.len() && names@[i as int]@ == name@ && forall|j: int| 0 <= j < i ==> names@[j]@ != name@,
            None => forall|j: int| 0 <= j < names@.len() ==> names@[j]@ != name@,
        },
{
    let mut i: usize = 0;
    while i < names.len()
        invariant
            i <= names@.len(),
            forall|j: int| 0 <= j < i ==> names@[j]@ != name@,
        decreases names.len() - i,
    {
        if crate::text::eq_str(names[i].as_str(), name) {
            return Some(i);
        }
        i = i + 1;
    }
    None
}

/// A run of the agent loop in progress: the history it extends, the events
/// it emitted, the turns it took and how it stands. The provider calls and
/// tool executions happen around it; it decides everything else.
#[derive(Debug)]
pub struct AgentRun {
    pub messages: Vec<Message>,
    pub events: Vec<AgentEvent>,
    /// Turns begun so far.
    pub iterations: usize,
    /// The turn cap.
    pub max_iterations: usize,
    /// How the run stands (final once `finished` or the cap is reached).
    pub stop: StopReason,
    /// The model answered without requesting tools.
    pub finished: bool,
}

impl AgentRun {
    /// The run's invariant: it never takes more turns than its cap.
    pub open spec fn wf(&self) -> bool {
        self.iterations <= self.max_iterations
    }

    /// Start a run over an existing history (already holding the latest user
    /// message).
    pub fn new(messages: Vec<Message>, cfg: &RunConfig) -> (r: AgentRun)
        ensures
            r.wf(),
            r.messages == messages,
            r.events@.len() == 0,
            r.iterations == 0,
            r.max_iterations == cfg.max_iterations,
            r.stop == StopReason::Completed,
            !r.finished,
    {
        AgentRun {
            messages,
            events: Vec::new(),
            iterations: 0,
            max_iterations: cfg.max_iterations,
            stop: StopReason::Completed,
            finished: false,
        }
    }

    /// Begin the next turn, if the run goes on: it stops once the model has
    /// answered without tools or the cap is reached. A new turn is numbered
    /// from 1 and announced by a `Turn` event.
    pub fn begin_turn(&mut self) -> (t: Option<usize>)
        requires
            old(self).wf(),
        ensures
            final(self).wf(),
            final(self).messages == old(self).messages,
            final(self).max_iterations == old(self).max_iterations,
            final(self).stop == old(self).stop,
            final(self).finished == old(self).finished,
            old(self).finished || old(self).iterations == old(self).max_iterations ==> {
                &&& t is None
                &&& final(self).iterations == old(self).iterations
                &&& final(self).events == old(self).events
            },
            !(old(self).finished || old(self).iterations == old(self).max_iterations) ==> {
                &&& t == Some((old(self).iterations + 1) as usize)
                &&& final(self).iterations == old(self).iterations + 1
                &&& events_view(final(self).events@) == events_view(old(self).events@).push(
                    EventView::Turn { turn: (old(self).iterations + 1) as usize },
                )
            },
    {
        if self.finished || self.iterations == self.max_iterations {
            return None;
        }
        self.iterations = self.iterations + 1;
        let ghost before = self.events@;
        self.events.push(AgentEvent::Turn { turn: self.iterations });
        assert(events_view(self.events@) == events_view(before).push(event_view(self.events@.last())));
        Some(self.iterations)
    }

    /// Take in the provider's delta stream for this turn: every delta is
    /// forwarded as a `Stream` event, the reassembled assistant message joins
    /// the history, and the tool calls to run come back, in index order (none
    /// when the model stopped, which finishes the run as completed).
    pub fn take_response(&mut self, deltas: Vec<Delta>) -> (calls: Vec<ToolCall>)
        requires
            old(self).wf(),
        ensures
            final(self).wf(),
            final(self).iterations == old(self).iterations,
            final(self).max_iterations == old(self).max_iterations,
            events_view(final(self).events@) == events_view(old(self).events@) + deltas_view(deltas@).map_values(
                |d: DeltaView| EventView::Stream(d),
            ),
            final(self).messages@.len() == old(self).messages@.len() + 1,
            final(self).messages@.subrange(0, old(self).messages@.len() as int) == old(self).messages@,
            final(self).messages@.last().role == Role::Assistant,
            final(self).messages@.last().content() == text_of(deltas_view(deltas@)),
            ordered_values(calls_view(final(self).messages@.last().tool_calls@), calls_of(deltas_view(deltas@))),
            final(self).messages@.last().tool_call_id is None,
            reason_of(deltas_view(deltas@)) == FinishReason::Stop ==> {
                &&& final(self).finished
                &&& final(self).stop == StopReason::Completed
                &&& calls@.len() == 0
            },
            reason_of(deltas_view(deltas@)) == FinishReason::ToolCalls ==> {
                &&& final(self).finished == old(self).finished
                &&& final(self).stop == old(self).stop
                &&& calls_view(calls@) == calls_view(final(self).messages@.last().tool_calls@)
            },
    {
        let mut i: usize = 0;
        let ghost ev0 = events_view(self.events@);
        while i < deltas.len()
            invariant
                i <= deltas@.len(),
                self.iterations == old(self).iterations,
                self.max_iterations == old(self).max_iterations,
                self.messages == old(self).messages,
                self.stop == old(self).stop,
                self.finished == old(self).finished,
                events_view(self.events@) == ev0 + deltas_view(deltas@).subrange(0, i as int).map_values(
                    |d: DeltaView| EventView::Stream(d),
                ),
            decreases deltas.len() - i,
        {
            let ghost before = self.events@;
            let d = copy_delta(&deltas[i]);
            self.events.push(AgentEvent::Stream(d));
            assert(events_view(self.events@) == events_view(before).push(EventView::Stream(delta_view(deltas@[i as int]))));
            assert(deltas_view(deltas@).subrange(0, i + 1) == deltas_view(deltas@).subrange(0, i as int).push(
                delta_view(deltas@[i as int]),
            ));
            i = i + 1;
        }
        assert(deltas_view(deltas@).subrange(0, deltas@.len() as int) == deltas_view(deltas@));
        let (text, tool_calls, reason) = assemble(deltas.as_slice());
        let mut asst = Message::text(Role::Assistant, text.as_str());
        let calls = crate::ai::message::copy_calls(&tool_calls);
        asst.tool_calls = tool_calls;
        self.messages.push(asst);
        match reason {
            FinishReason::Stop => {
                self.stop = StopReason::Completed;
                self.finished = true;
                Vec::new()
            },
            FinishReason::ToolCalls => calls,
        }
    }

    /// Append one tool result to the history (see `push_tool_result`).
    pub fn record_tool_result(&mut self, tc: &ToolCall, res: Result<String, String>)
        requires
            old(self).wf(),
        ensures
            final(self).wf(),
            final(self).iterations == old(self).iterations,
            final(self).max_iterations == old(self).max_iterations,
            final(self).stop == old(self).stop,
            final(self).finished == old(self).finished,
            events_view(final(self).events@) == events_view(old(self).events@) + seq![
                EventView::ToolStart { name: tc.name@, arguments: tc.arguments@ },
                EventView::ToolResult {
                    name: tc.name@,
                    ok: res is Ok,
                    result: match res {
                        Ok(o) => o@,
                        Err(e) => e@,
                    },
                },
            ],
            final(self).messages@.len() == old(self).messages@.len() + 1,
            final(self).messages@.subrange(0, old(self).messages@.len() as int) == old(self).messages@,
            final(self).messages@.last().role == Role::Tool,
            final(self).messages@.last().content() == result_text(res),
            final(self).messages@.last().tool_call_id matches Some(i) && i@ == tc.id@,
    {
        push_tool_result(tc, res, &mut self.events, &mut self.messages);
    }

    /// Close a turn that ran tools: reaching the cap stops the run there.
    pub fn end_turn(&mut self)
        requires
            old(self).wf(),
        ensures
            final(self).wf(),
            final(self).messages == old(self).messages,
            final(self).events == old(self).events,
            final(self).iterations == old(self).iterations,
            final(self).max_iterations == old(self).max_iterations,
            final(self).finished == old(self).finished,
            final(self).stop == (if !old(self).finished && old(self).iterations == old(self).max_iterations {
                StopReason::MaxIterations
            } else {
                old(self).stop
            }),
    {
        if !self.finished && self.iterations == self.max_iterations {
            self.stop = StopReason::MaxIterations;
        }
    }

    /// Finish the run: a `Stop` event closes the event list.
    pub fn finish(self) -> (r: RunResult)
        ensures
            r.messages == self.messages,
            r.iterations == self.iterations,
            r.stop == self.stop,
            events_view(r.events@) == events_view(self.events@).push(EventView::Stop(self.stop)),
    {
        let mut events = self.events;
        let ghost before = events@;
        events.push(AgentEvent::Stop(self.stop));
        assert(events_view(events@) == events_view(before).push(EventView::Stop(self.stop)));
        RunResult { messages: self.messages, iterations: self.iterations, stop: self.stop, events }
    }
}

/// A copy of a delta with the same contents.
pub fn copy_delta(d: &Delta) -> (r: Delta)
    ensures
        delta_view(r) == delta_view(*d),
{
    match d {
        Delta::Reasoning(s) => Delta::Reasoning(s.clone()),
        Delta::Text(s) => Delta::Text(s.clone()),
        Delta::ToolCallStart { index, id, name } => Delta::ToolCallStart { index: *index, id: id.clone(), name: name.clone() },
        Delta::ToolCallArgs { index, fragment } => Delta::ToolCallArgs { index: *index, fragment: fragment.clone() },
        Delta::Done(r) => Delta::Done(*r),
    }
}

} // verus!
