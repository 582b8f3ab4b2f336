//! Lenient replay of a session log's records into a history.
//!
//! Records are replayed in order: a malformed record is skipped and counted;
//! a title record replaces the title (the last one wins); a system message is
//! dropped (the system prompt is rebuilt on the next turn). An assistant
//! message with tool calls opens a tool batch; a tool result is kept only
//! when its id was requested by the open batch (an orphan is dropped); any
//! other message, a new batch, and the end of the log close the open batch,
//! and closing gives every requested call that never got a result an
//! in-memory `Error: interrupted` result, counted as repaired.
use vstd::prelude::*;
use crate::agent::session::{Message, Role, ToolCall};
use crate::ai::message::{call_view, calls_view, opt_view, parts_view};
use crate::text::{debug_quoted, debug_str, eq_str, push_str};

verus! {

broadcast use vstd::seq_lib::group_seq_properties;

/// One record of a session log, as read back.
#[derive(Debug)]
pub enum Record {
    Message(Message),
    Title(String),
    /// A line that did not parse as a known record.
    Malformed,
}

/// What a message is, for replay: its role, its parts' texts and their
/// concatenation, its calls and result id.
pub ghost struct MsgView {
    pub role: Role,
    pub parts: Seq<Seq<char>>,
    pub content: Seq<char>,
    pub calls: Seq<(Seq<char>, Seq<char>, Seq<char>)>,
    pub tool_call_id: Option<Seq<char>>,
}

pub open spec fn msg_view(m: Message) -> MsgView {
    MsgView {
        role: m.role,
        parts: parts_view(m.parts@),
        content: m.content(),
        calls: calls_view(m.tool_calls@),
        tool_call_id: opt_view(m.tool_call_id),
    }
}

pub open spec fn msg_views(ms: Seq<Message>) -> Seq<MsgView> {
    ms.map_values(|m: Message| msg_view(m))
}

pub ghost enum RecordView {
    Message(MsgView),
    Title(Seq<char>),
    Malformed,
}

pub open spec fn record_view(r: Record) -> RecordView {
    match r {
        Record::Message(m) => RecordView::Message(msg_view(m)),
        Record::Title(t) => RecordView::Title(t@),
        Record::Malformed => RecordView::Malformed,
    }
}

pub open spec fn record_views(rs: Seq<Record>) -> Seq<RecordView> {
    rs.map_values(|r: Record| record_view(r))
}

/// The result patched in for a call that never got one.
pub open spec fn interrupted(id: Seq<char>) -> MsgView {
    MsgView {
        role: Role::Tool,
        parts: seq!["Error: interrupted"@],
        content: "Error: interrupted"@,
        calls: Seq::empty(),
        tool_call_id: Some(id),
    }
}

/// An open tool batch: the ids it requested, in order, and those that
/// already got a result.
pub ghost struct Batch {
    pub ids: Seq<Seq<char>>,
    pub matched: Set<Seq<char>>,
}

/// The replay so far.
pub ghost struct ReplayState {
    pub messages: Seq<MsgView>,
    pub title: Option<Seq<char>>,
    pub skipped: nat,
    pub repaired: nat,
    pub batch: Option<Batch>,
}

pub open spec fn call_ids(calls: Seq<(Seq<char>, Seq<char>, Seq<char>)>) -> Seq<Seq<char>> {
    calls.map_values(|c: (Seq<char>, Seq<char>, Seq<char>)| c.0)
}

/// The requested ids without a result, in request order.
pub open spec fn unmatched(ids: Seq<Seq<char>>, matched: Set<Seq<char>>) -> Seq<Seq<char>>
    decreases ids.len(),
{
    if ids.len() == 0 {
        Seq::empty()
    } else {
        unmatched(ids.drop_last(), matched) + (if matched.contains(ids.last()) {
            Seq::empty()
        } else {
            seq![ids.last()]
        })
    }
}

/// Close the open batch, if any.
pub open spec fn close(s: ReplayState) -> ReplayState {
    match s.batch {
        None => s,
        Some(b) => {
            let u = unmatched(b.ids, b.matched);
            ReplayState {
                messages: s.messages + u.map_values(|id: Seq<char>| interrupted(id)),
                repaired: s.repaired + u.len(),
                batch: None,
                ..s
            }
        },
    }
}

/// Does a result with this id belong to the open batch?
pub open spec fn belongs(batch: Option<Batch>, id: Option<Seq<char>>) -> bool {
    match (batch, id) {
        (Some(b), Some(i)) => b.ids.contains(i),
        _ => false,
    }
}

/// One record of the replay.
pub open spec fn step(s: ReplayState, r: RecordView) -> ReplayState {
    match r {
        RecordView::Malformed => ReplayState { skipped: s.skipped + 1, ..s },
        RecordView::Title(t) => ReplayState { title: Some(t), ..s },
        RecordView::Message(m) => if m.role == Role::System {
            s
        } else if m.role == Role::Assistant && m.calls.len() > 0 {
            let c = close(s);
            ReplayState {
                messages: c.messages.push(m),
                batch: Some(Batch { ids: call_ids(m.calls), matched: Set::empty() }),
                ..c
            }
        } else if m.role == Role::Tool {
            if belongs(s.batch, m.tool_call_id) {
                let b = s.batch.unwrap();
                ReplayState {
                    messages: s.messages.push(m),
                    batch: Some(Batch { matched: b.matched.insert(m.tool_call_id.unwrap()), ..b }),
                    ..s
                }
            } else {
                s
            }
        } else {
            let c = close(s);
            ReplayState { messages: c.messages.push(m), ..c }
        },
    }
}

pub open spec fn empty_state() -> ReplayState {
    ReplayState { messages: Seq::empty(), title: None, skipped: 0, repaired: 0, batch: None }
}

/// The replay of a record sequence, before the final close.
pub open spec fn replay(rs: Seq<RecordView>) -> ReplayState
    decreases rs.len(),
{
    if rs.len() == 0 {
        empty_state()
    } else {
        step(replay(rs.drop_last()), rs.last())
    }
}

/// The replay of a whole log: every record, then the final close.
pub open spec fn replayed(rs: Seq<RecordView>) -> ReplayState {
    close(replay(rs))
}

/// Does this message open a tool batch?
pub open spec fn opens_batch(m: MsgView) -> bool {
    m.role == Role::Assistant && m.calls.len() > 0
}

pub open spec fn is_tool(m: MsgView) -> bool {
    m.role == Role::Tool
}

/// Everything after `i` up to and including `j` is a tool result.
pub open spec fn tool_run(ms: Seq<MsgView>, i: int, j: int) -> bool {
    forall|k: int| i < k <= j ==> is_tool(#[trigger] ms[k])
}

/// The message at `j` answers call `id` of the batch opened at `i`: it is a
/// result for `id` in the run of results right after `i`.
pub open spec fn answers(ms: Seq<MsgView>, i: int, j: int, id: Seq<char>) -> bool {
    &&& i < j < ms.len()
    &&& tool_run(ms, i, j)
    &&& ms[j].tool_call_id == Some(id)
}

/// Every call of the batch opened at `i` is answered.
pub open spec fn batch_answered(ms: Seq<MsgView>, i: int) -> bool {
    forall|id: Seq<char>| #[trigger] call_ids(ms[i].calls).contains(id) ==> exists|j: int| answers(ms, i, j, id)
}

/// The tool result at `j` answers a call of a batch opened before it.
pub open spec fn result_requested(ms: Seq<MsgView>, j: int) -> bool {
    exists|i: int|
        #![trigger ms[i]]
        0 <= i < j && opens_batch(ms[i]) && tool_run(ms, i, j) && (ms[j].tool_call_id matches Some(id)
            && call_ids(ms[i].calls).contains(id))
}

/// A history in which tool calls and results pair up: every call of every
/// batch has a result among the results that follow it, and every result
/// answers a call of the batch it follows.
pub open spec fn well_paired(ms: Seq<MsgView>) -> bool {
    &&& forall|i: int| 0 <= i < ms.len() && #[trigger] opens_batch(ms[i]) ==> batch_answered(ms, i)
    &&& forall|j: int| 0 <= j < ms.len() && #[trigger] is_tool(ms[j]) ==> result_requested(ms, j)
}

/// The open batch was opened at `p`: the history before `p` pairs up, and
/// everything after `p` is a result for a requested id, including one for
/// each matched id.
pub open spec fn open_batch_at(ms: Seq<MsgView>, b: Batch, p: int) -> bool {
    &&& 0 <= p < ms.len()
    &&& opens_batch(ms[p])
    &&& call_ids(ms[p].calls) == b.ids
    &&& well_paired(ms.subrange(0, p))
    &&& forall|k: int|
        p < k < ms.len() ==> is_tool(#[trigger] ms[k]) && (ms[k].tool_call_id matches Some(id) && b.ids.contains(id))
    &&& forall|id: Seq<char>|
        #[trigger] b.matched.contains(id) ==> exists|k: int| p < k < ms.len() && ms[k].tool_call_id == Some(id)
}

pub open spec fn replay_inv(s: ReplayState) -> bool {
    match s.batch {
        None => well_paired(s.messages),
        Some(b) => exists|p: int| #[trigger] open_batch_at(s.messages, b, p),
    }
}

proof fn lemma_unmatched_contains(ids: Seq<Seq<char>>, matched: Set<Seq<char>>, x: Seq<char>)
    ensures
        unmatched(ids, matched).contains(x) == (ids.contains(x) && !matched.contains(x)),
    decreases ids.len(),
{
    if ids.len() > 0 {
        let pre = ids.drop_last();
        lemma_unmatched_contains(pre, matched, x);
        let tail = if matched.contains(ids.last()) {
            Seq::<Seq<char>>::empty()
        } else {
            seq![ids.last()]
        };
        let u = unmatched(pre, matched);
        assert(unmatched(ids, matched) == u + tail);
        if (u + tail).contains(x) {
            let k = choose|k: int| 0 <= k < (u + tail).len() && (u + tail)[k] == x;
            if k < u.len() {
                assert(u[k] == x);
                let q = choose|q: int| 0 <= q < pre.len() && pre[q] == x;
                assert(ids[q] == x);
            } else {
                assert(ids[ids.len() - 1] == x);
            }
        }
        if ids.contains(x) && !matched.contains(x) {
            let q = choose|q: int| 0 <= q < ids.len() && ids[q] == x;
            if q < ids.len() - 1 {
                assert(pre[q] == x);
                let k = choose|k: int| 0 <= k < u.len() && u[k] == x;
                assert((u + tail)[k] == x);
            } else {
                assert((u + tail)[u.len() as int] == x);
            }
        }
    }
}

/// A history that pairs up still does after a message that neither opens a
/// batch nor is a result.
proof fn lemma_push_plain(ms: Seq<MsgView>, m: MsgView)
    requires
        well_paired(ms),
        !opens_batch(m),
        !is_tool(m),
    ensures
        well_paired(ms.push(m)),
{
    let ms2 = ms.push(m);
    assert forall|i: int| 0 <= i < ms2.len() && #[trigger] opens_batch(ms2[i]) implies batch_answered(ms2, i) by {
        assert(ms2[i] == ms[i]);
        assert forall|id: Seq<char>| #[trigger] call_ids(ms2[i].calls).contains(id) implies exists|j: int|
            answers(ms2, i, j, id) by {
            assert(opens_batch(ms[i]));
            let j = choose|j: int| answers(ms, i, j, id);
            assert(answers(ms2, i, j, id));
        }
    }
    assert forall|j: int| 0 <= j < ms2.len() && #[trigger] is_tool(ms2[j]) implies result_requested(ms2, j) by {
        assert(ms2[j] == ms[j]);
        assert(is_tool(ms[j]));
        let i = choose|i: int|
            #![trigger ms[i]]
            0 <= i < j && opens_batch(ms[i]) && tool_run(ms, i, j) && (ms[j].tool_call_id matches Some(id)
                && call_ids(ms[i].calls).contains(id));
        assert(ms2[i] == ms[i]);
        assert(tool_run(ms2, i, j));
    }
}

/// What closing appends: one interrupted result per unmatched id.
pub open spec fn patches(b: Batch) -> Seq<MsgView> {
    unmatched(b.ids, b.matched).map_values(|id: Seq<char>| interrupted(id))
}

/// After closing, everything after the opener is a result for a requested
/// id.
proof fn lemma_close_tail(ms: Seq<MsgView>, b: Batch, p: int)
    requires
        open_batch_at(ms, b, p),
    ensures
        forall|k: int|
            p < k < (ms + patches(b)).len() ==> is_tool(#[trigger] (ms + patches(b))[k]) && ((ms
                + patches(b))[k].tool_call_id matches Some(id) && b.ids.contains(id)),
{
    let u = unmatched(b.ids, b.matched);
    let out = ms + patches(b);
    assert forall|k: int| p < k < out.len() implies is_tool(#[trigger] out[k]) && (out[k].tool_call_id matches Some(
        id,
    ) && b.ids.contains(id)) by {
        if k < ms.len() {
            assert(out[k] == ms[k]);
        } else {
            let q = k - ms.len();
            assert(out[k] == interrupted(u[q]));
            assert(u.contains(u[q]));
            lemma_unmatched_contains(b.ids, b.matched, u[q]);
        }
    }
}

/// After closing, every batch is answered.
#[verifier::spinoff_prover]
proof fn lemma_close_openers(ms: Seq<MsgView>, b: Batch, p: int)
    requires
        open_batch_at(ms, b, p),
    ensures
        forall|i: int|
            0 <= i < (ms + patches(b)).len() && #[trigger] opens_batch((ms + patches(b))[i]) ==> batch_answered(
                ms + patches(b),
                i,
            ),
{
    let u = unmatched(b.ids, b.matched);
    let out = ms + patches(b);
    let pre = ms.subrange(0, p);
    lemma_close_tail(ms, b, p);
    assert forall|i: int| 0 <= i < out.len() && #[trigger] opens_batch(out[i]) implies batch_answered(out, i) by {
        if i < p {
            assert(out[i] == pre[i]);
            assert(opens_batch(pre[i]));
            assert(batch_answered(pre, i));
            assert forall|id: Seq<char>| #[trigger] call_ids(out[i].calls).contains(id) implies exists|j: int|
                answers(out, i, j, id) by {
                let j = choose|j: int| answers(pre, i, j, id);
                assert forall|k: int| i < k <= j implies is_tool(#[trigger] out[k]) by {
                    assert(out[k] == pre[k]);
                }
                assert(out[j] == pre[j]);
                assert(answers(out, i, j, id));
            }
        } else if i == p {
            assert(out[p] == ms[p]);
            assert forall|id: Seq<char>| #[trigger] call_ids(out[i].calls).contains(id) implies exists|j: int|
                answers(out, i, j, id) by {
                assert(b.ids.contains(id));
                if b.matched.contains(id) {
                    let k = choose|k: int| p < k < ms.len() && ms[k].tool_call_id == Some(id);
                    assert(out[k] == ms[k]);
                    assert(answers(out, i, k, id));
                } else {
                    lemma_unmatched_contains(b.ids, b.matched, id);
                    let q = choose|q: int| 0 <= q < u.len() && u[q] == id;
                    let j = ms.len() + q;
                    assert(out[j] == interrupted(u[q]));
                    assert(answers(out, i, j, id));
                }
            }
        } else {
            assert(is_tool(out[i]));
        }
    }
}

/// After closing, every result answers a call.
#[verifier::spinoff_prover]
proof fn lemma_close_results(ms: Seq<MsgView>, b: Batch, p: int)
    requires
        open_batch_at(ms, b, p),
    ensures
        forall|j: int|
            0 <= j < (ms + patches(b)).len() && #[trigger] is_tool((ms + patches(b))[j]) ==> result_requested(
                ms + patches(b),
                j,
            ),
{
    let out = ms + patches(b);
    let pre = ms.subrange(0, p);
    lemma_close_tail(ms, b, p);
    assert forall|j: int| 0 <= j < out.len() && #[trigger] is_tool(out[j]) implies result_requested(out, j) by {
        if j < p {
            assert(out[j] == pre[j]);
            assert(is_tool(pre[j]));
            assert(result_requested(pre, j));
            let i = choose|i: int|
                #![trigger pre[i]]
                0 <= i < j && opens_batch(pre[i]) && tool_run(pre, i, j) && (pre[j].tool_call_id matches Some(id)
                    && call_ids(pre[i].calls).contains(id));
            assert(out[i] == pre[i]);
            assert forall|k: int| i < k <= j implies is_tool(#[trigger] out[k]) by {
                assert(out[k] == pre[k]);
            }
        } else if j == p {
            assert(out[p] == ms[p]);
        } else {
            assert(out[p] == ms[p]);
            assert(tool_run(out, p, j));
        }
    }
}

/// Closing the open batch leaves a history that pairs up.
proof fn lemma_close_pairs(s: ReplayState)
    requires
        replay_inv(s),
    ensures
        well_paired(close(s).messages),
        close(s).batch is None,
{
    match s.batch {
        None => {},
        Some(b) => {
            let p = choose|p: int| open_batch_at(s.messages, b, p);
            lemma_close_openers(s.messages, b, p);
            lemma_close_results(s.messages, b, p);
            assert(close(s).messages == s.messages + patches(b));
        },
    }
}

proof fn lemma_same_history_keeps_inv(s: ReplayState, n: ReplayState)
    requires
        replay_inv(s),
        n.messages == s.messages,
        n.batch == s.batch,
    ensures
        replay_inv(n),
{
    match s.batch {
        Some(b) => {
            let p = choose|p: int| open_batch_at(s.messages, b, p);
            assert(open_batch_at(n.messages, b, p));
        },
        None => {},
    }
}

proof fn lemma_open_inv(n: ReplayState, b: Batch, p: int)
    requires
        n.batch == Some(b),
        open_batch_at(n.messages, b, p),
    ensures
        replay_inv(n),
{
    assert(open_batch_at(n.messages, b, p));
    assert(n.batch.unwrap() == b);
    assert(open_batch_at(n.messages, n.batch.unwrap(), p));
    assert(exists|q: int| open_batch_at(n.messages, n.batch.unwrap(), q));
}

/// Opening a batch (after closing the previous one) keeps the invariant.
proof fn lemma_open_keeps_inv(s: ReplayState, m: MsgView)
    requires
        replay_inv(s),
        m.role == Role::Assistant,
        m.calls.len() > 0,
    ensures
        replay_inv(step(s, RecordView::Message(m))),
{
    lemma_close_pairs(s);
    let c = close(s);
    let ms2 = c.messages.push(m);
    let b2 = Batch { ids: call_ids(m.calls), matched: Set::empty() };
    let p = c.messages.len() as int;
    assert(ms2.subrange(0, p) == c.messages);
    assert(open_batch_at(ms2, b2, p));
    lemma_open_inv(step(s, RecordView::Message(m)), b2, p);
}

/// A result for a requested id joins the open batch.
proof fn lemma_result_keeps_inv(s: ReplayState, m: MsgView)
    requires
        replay_inv(s),
        m.role == Role::Tool,
        belongs(s.batch, m.tool_call_id),
    ensures
        replay_inv(step(s, RecordView::Message(m))),
{
    let b = s.batch.unwrap();
    let ms = s.messages;
    let p = choose|p: int| open_batch_at(ms, b, p);
    let id = m.tool_call_id.unwrap();
    let ms2 = ms.push(m);
    let b2 = Batch { matched: b.matched.insert(id), ..b };
    assert(ms2.subrange(0, p) == ms.subrange(0, p));
    assert forall|k: int| p < k < ms2.len() implies is_tool(#[trigger] ms2[k]) && (ms2[k].tool_call_id matches Some(i)
        && b2.ids.contains(i)) by {
        if k < ms.len() {
            assert(ms2[k] == ms[k]);
        }
    }
    assert forall|x: Seq<char>| #[trigger] b2.matched.contains(x) implies exists|k: int|
        p < k < ms2.len() && ms2[k].tool_call_id == Some(x) by {
        if x == id {
            assert(ms2[ms.len() as int] == m);
        } else {
            let k = choose|k: int| p < k < ms.len() && ms[k].tool_call_id == Some(x);
            assert(ms2[k] == ms[k]);
        }
    }
    assert(ms2[p] == ms[p]);
    assert(open_batch_at(ms2, b2, p));
    lemma_open_inv(step(s, RecordView::Message(m)), b2, p);
}

/// Every step of the replay keeps the invariant.
proof fn lemma_step_keeps_inv(s: ReplayState, r: RecordView)
    requires
        replay_inv(s),
    ensures
        replay_inv(step(s, r)),
{
    match r {
        RecordView::Malformed => {
            lemma_same_history_keeps_inv(s, step(s, r));
        },
        RecordView::Title(_) => {
            lemma_same_history_keeps_inv(s, step(s, r));
        },
        RecordView::Message(m) => {
            if m.role == Role::System {
            } else if m.role == Role::Assistant && m.calls.len() > 0 {
                lemma_open_keeps_inv(s, m);
            } else if m.role == Role::Tool {
                if belongs(s.batch, m.tool_call_id) {
                    lemma_result_keeps_inv(s, m);
                }
            } else {
                lemma_close_pairs(s);
                lemma_push_plain(close(s).messages, m);
            }
        },
    }
}

proof fn lemma_replay_inv(rs: Seq<RecordView>)
    ensures
        replay_inv(replay(rs)),
    decreases rs.len(),
{
    if rs.len() > 0 {
        lemma_replay_inv(rs.drop_last());
        lemma_step_keeps_inv(replay(rs.drop_last()), rs.last());
    }
}

/// A replayed history never leaves a tool call dangling: every call an
/// assistant message requests has a result among the results right after
/// it (a real one, or an `Error: interrupted` patch), and every kept result
/// answers a call of the batch it follows (orphans are gone).
pub proof fn lemma_replay_pairs_every_call(rs: Seq<RecordView>)
    ensures
        well_paired(replayed(rs).messages),
{
    lemma_replay_inv(rs);
    lemma_close_pairs(replay(rs));
}

/// The batch a history leaves open: the last message that is not a tool
/// result, when it opens a batch.
pub open spec fn open_at(ms: Seq<MsgView>) -> Option<int>
    decreases ms.len(),
{
    if ms.len() == 0 {
        None
    } else if is_tool(ms.last()) {
        open_at(ms.drop_last())
    } else if opens_batch(ms.last()) {
        Some(ms.len() - 1)
    } else {
        None
    }
}

/// The ids the results after `p` carry.
pub open spec fn result_ids(ms: Seq<MsgView>, p: int) -> Set<Seq<char>> {
    Set::new(|id: Seq<char>| exists|q: int| p < q < ms.len() && ms[q].tool_call_id == Some(id))
}

/// A history written to a log as one message record per message.
pub open spec fn message_records(ms: Seq<MsgView>) -> Seq<RecordView> {
    ms.map_values(|m: MsgView| RecordView::Message(m))
}

/// No system message: the system prompt is rebuilt per turn and never kept.
pub open spec fn no_system(ms: Seq<MsgView>) -> bool {
    forall|i: int| 0 <= i < ms.len() ==> #[trigger] ms[i].role != Role::System
}

proof fn lemma_open_at_is(ms: Seq<MsgView>, i: int)
    requires
        0 <= i < ms.len(),
        opens_batch(ms[i]),
        tool_run(ms, i, ms.len() - 1),
    ensures
        open_at(ms) == Some(i),
    decreases ms.len(),
{
    if i < ms.len() - 1 {
        assert(is_tool(ms[ms.len() - 1]));
        let pre = ms.drop_last();
        assert forall|k: int| i < k <= pre.len() - 1 implies is_tool(#[trigger] pre[k]) by {
            assert(pre[k] == ms[k]);
        }
        lemma_open_at_is(pre, i);
    }
}

proof fn lemma_open_at_shape(ms: Seq<MsgView>)
    ensures
        open_at(ms) matches Some(p) ==> 0 <= p < ms.len() && opens_batch(ms[p]) && tool_run(ms, p, ms.len() - 1),
    decreases ms.len(),
{
    if ms.len() > 0 && is_tool(ms.last()) {
        let pre = ms.drop_last();
        lemma_open_at_shape(pre);
        if let Some(p) = open_at(pre) {
            assert forall|k: int| p < k <= ms.len() - 1 implies is_tool(#[trigger] ms[k]) by {
                if k < ms.len() - 1 {
                    assert(pre[k] == ms[k]);
                }
            }
        }
    }
}

proof fn lemma_unmatched_empty(ids: Seq<Seq<char>>, matched: Set<Seq<char>>)
    requires
        forall|id: Seq<char>| #[trigger] ids.contains(id) ==> matched.contains(id),
    ensures
        unmatched(ids, matched).len() == 0,
{
    let u = unmatched(ids, matched);
    if u.len() > 0 {
        lemma_unmatched_contains(ids, matched, u[0]);
        assert(u.contains(u[0]));
    }
}

/// The replay state after the first `k` messages of a well-paired history:
/// the messages themselves, and the batch the prefix leaves open with the
/// ids answered so far.
spec fn prefix_state(ms: Seq<MsgView>, k: int, title: Option<Seq<char>>) -> ReplayState {
    let p = ms.subrange(0, k);
    ReplayState {
        messages: p,
        title,
        skipped: 0,
        repaired: 0,
        batch: match open_at(p) {
            None => None,
            Some(o) => Some(Batch { ids: call_ids(p[o].calls), matched: result_ids(p, o) }),
        },
    }
}

/// Every call of the batch a prefix leaves open is answered before the
/// message at `k` when that message is not a tool result.
proof fn lemma_answered_before(ms: Seq<MsgView>, k: int)
    requires
        well_paired(ms),
        0 <= k <= ms.len(),
        k < ms.len() ==> !is_tool(ms[k]),
    ensures
        open_at(ms.subrange(0, k)) matches Some(o) ==> (forall|id: Seq<char>| #[trigger] call_ids(
            ms.subrange(0, k)[o].calls,
        ).contains(id) ==> result_ids(ms.subrange(0, k), o).contains(id)),
{
    let p = ms.subrange(0, k);
    lemma_open_at_shape(p);
    if let Some(o) = open_at(p) {
        assert(p[o] == ms[o]);
        assert(opens_batch(ms[o]));
        assert forall|id: Seq<char>| #[trigger] call_ids(p[o].calls).contains(id) implies result_ids(p, o).contains(
            id,
        ) by {
            assert(batch_answered(ms, o));
            assert(call_ids(ms[o].calls).contains(id));
            let j = choose|j: int| answers(ms, o, j, id);
            if j >= k {
                assert(is_tool(ms[k]));
            }
            assert(p[j] == ms[j]);
        }
    }
}

/// One more record of a well-paired history keeps the replay at the
/// prefix state: the shared setup of the two cases below.
spec fn step_setup(ms: Seq<MsgView>, head: Seq<RecordView>, title: Option<Seq<char>>, k: int) -> bool {
    &&& well_paired(ms)
    &&& no_system(ms)
    &&& 0 < k <= ms.len()
    &&& replay(head + message_records(ms.subrange(0, k - 1))) == prefix_state(ms, k - 1, title)
}

proof fn lemma_step_unfold(ms: Seq<MsgView>, head: Seq<RecordView>, title: Option<Seq<char>>, k: int)
    requires
        step_setup(ms, head, title, k),
    ensures
        replay(head + message_records(ms.subrange(0, k))) == step(
            prefix_state(ms, k - 1, title),
            RecordView::Message(ms[k - 1]),
        ),
        ms.subrange(0, k) == ms.subrange(0, k - 1).push(ms[k - 1]),
{
    let p = ms.subrange(0, k);
    let pre = ms.subrange(0, k - 1);
    assert(p.drop_last() == pre);
    assert((head + message_records(p)).drop_last() == head + message_records(pre));
    assert((head + message_records(p)).last() == RecordView::Message(ms[k - 1]));
    assert(p == pre.push(ms[k - 1]));
}

#[verifier::spinoff_prover]
proof fn lemma_step_tool(ms: Seq<MsgView>, head: Seq<RecordView>, title: Option<Seq<char>>, k: int)
    requires
        step_setup(ms, head, title, k),
        is_tool(ms[k - 1]),
    ensures
        replay(head + message_records(ms.subrange(0, k))) == prefix_state(ms, k, title),
{
    lemma_step_unfold(ms, head, title, k);
    let p = ms.subrange(0, k);
    let pre = ms.subrange(0, k - 1);
    let m = ms[k - 1];
    let s = prefix_state(ms, k - 1, title);
    assert(m.role != Role::System);
    assert(result_requested(ms, k - 1));
    let i = choose|i: int|
        #![trigger ms[i]]
        0 <= i < k - 1 && opens_batch(ms[i]) && tool_run(ms, i, k - 1) && (ms[k - 1].tool_call_id matches Some(id)
            && call_ids(ms[i].calls).contains(id));
    assert(pre[i] == ms[i]);
    assert forall|x: int| i < x <= pre.len() - 1 implies is_tool(#[trigger] pre[x]) by {
        assert(pre[x] == ms[x]);
    }
    lemma_open_at_is(pre, i);
    let id = m.tool_call_id.unwrap();
    assert(s.batch == Some(Batch { ids: call_ids(pre[i].calls), matched: result_ids(pre, i) }));
    assert(belongs(s.batch, m.tool_call_id));
    assert(p.drop_last() == pre);
    assert(p.last() == m);
    assert(open_at(p) == Some(i));
    assert(p[i] == pre[i]);
    assert(result_ids(p, i) =~= result_ids(pre, i).insert(id)) by {
        assert forall|x: Seq<char>| result_ids(p, i).contains(x) implies #[trigger] result_ids(pre, i).insert(
            id,
        ).contains(x) by {
            let q = choose|q: int| i < q < p.len() && p[q].tool_call_id == Some(x);
            if q < k - 1 {
                assert(pre[q] == p[q]);
            }
        }
        assert forall|x: Seq<char>| #[trigger] result_ids(pre, i).insert(id).contains(x) implies result_ids(
            p,
            i,
        ).contains(x) by {
            if x == id {
                assert(p[k - 1].tool_call_id == Some(x));
            } else {
                let q = choose|q: int| i < q < pre.len() && pre[q].tool_call_id == Some(x);
                assert(p[q] == pre[q]);
            }
        }
    }
}

#[verifier::spinoff_prover]
proof fn lemma_step_other(ms: Seq<MsgView>, head: Seq<RecordView>, title: Option<Seq<char>>, k: int)
    requires
        step_setup(ms, head, title, k),
        !is_tool(ms[k - 1]),
    ensures
        replay(head + message_records(ms.subrange(0, k))) == prefix_state(ms, k, title),
{
    lemma_step_unfold(ms, head, title, k);
    let p = ms.subrange(0, k);
    let pre = ms.subrange(0, k - 1);
    let m = ms[k - 1];
    let s = prefix_state(ms, k - 1, title);
    assert(m.role != Role::System);
    lemma_open_at_shape(pre);
    lemma_answered_before(ms, k - 1);
    if let Some(o) = open_at(pre) {
        lemma_unmatched_empty(call_ids(pre[o].calls), result_ids(pre, o));
    }
    assert(close(s).messages == pre);
    assert(p.drop_last() == pre);
    assert(p.last() == m);
    if opens_batch(m) {
        assert(open_at(p) == Some(k - 1));
        assert(p[k - 1] == m);
        assert(result_ids(p, k - 1) =~= Set::<Seq<char>>::empty());
    } else {
        assert(open_at(p) is None);
    }
}

proof fn lemma_replay_prefix(ms: Seq<MsgView>, head: Seq<RecordView>, title: Option<Seq<char>>, k: int)
    requires
        well_paired(ms),
        no_system(ms),
        0 <= k <= ms.len(),
        replay(head) == (ReplayState { title, ..empty_state() }),
    ensures
        replay(head + message_records(ms.subrange(0, k))) == prefix_state(ms, k, title),
    decreases k,
{
    if k == 0 {
        assert(head + message_records(ms.subrange(0, k)) == head);
        assert(ms.subrange(0, k) == Seq::<MsgView>::empty());
    } else {
        lemma_replay_prefix(ms, head, title, k - 1);
        if is_tool(ms[k - 1]) {
            lemma_step_tool(ms, head, title, k);
        } else {
            lemma_step_other(ms, head, title, k);
        }
    }
}

/// What a read gives back of a write: a history without system messages in
/// which tool calls and results pair up, written as a log (an optional title
/// record, then one message record per message), replays to that history
/// and title, with nothing skipped and nothing repaired.
pub proof fn lemma_written_history_replays_to_itself(ms: Seq<MsgView>, title: Option<Seq<char>>)
    requires
        well_paired(ms),
        no_system(ms),
    ensures
        ({
            let head = match title {
                Some(t) => seq![RecordView::Title(t)],
                None => Seq::empty(),
            };
            let r = replayed(head + message_records(ms));
            &&& r.messages == ms
            &&& r.title == title
            &&& r.skipped == 0
            &&& r.repaired == 0
        }),
{
    let head = match title {
        Some(t) => seq![RecordView::Title(t)],
        None => Seq::<RecordView>::empty(),
    };
    if let Some(t) = title {
        assert(head.drop_last() == Seq::<RecordView>::empty());
        assert(head.last() == RecordView::Title(t));
        assert(replay(head.drop_last()) == empty_state());
    }
    assert(replay(head) == (ReplayState { title, ..empty_state() }));
    lemma_replay_prefix(ms, head, title, ms.len() as int);
    assert(ms.subrange(0, ms.len() as int) == ms);
    lemma_answered_before(ms, ms.len() as int);
    let s = replay(head + message_records(ms));
    if let Some(o) = open_at(ms) {
        lemma_unmatched_empty(call_ids(ms[o].calls), result_ids(ms, o));
    }
}

/// The history a log replays to.
#[derive(Debug)]
pub struct Replayed {
    pub messages: Vec<Message>,
    pub title: Option<String>,
    /// Malformed records that were skipped.
    pub skipped_records: usize,
    /// Tool calls whose result never arrived and got an `Error: interrupted`
    /// result.
    pub repaired_tool_calls: usize,
}

/// The exec form of an open batch: requested ids, ids with a result.
struct OpenBatch {
    ids: Vec<String>,
    matched: Vec<String>,
}

pub open spec fn string_seqs(v: Seq<String>) -> Seq<Seq<char>> {
    v.map_values(|s: String| s@)
}

spec fn batch_view(b: Option<OpenBatch>) -> Option<Batch> {
    match b {
        None => None,
        Some(o) => Some(Batch { ids: string_seqs(o.ids@), matched: string_seqs(o.matched@).to_set() }),
    }
}

fn holds(v: &Vec<String>, s: &str) -> (b: bool)
    ensures
        b == string_seqs(v@).contains(s@),
{
    let mut i: usize = 0;
    while i < v.len()
        invariant
            i <= v@.len(),
            forall|j: int| 0 <= j < i ==> v@[j]@ != s@,
        decreases v.len() - i,
    {
        if eq_str(v[i].as_str(), s) {
            assert(string_seqs(v@)[i as int] == s@);
            return true;
        }
        i = i + 1;
    }
    assert forall|j: int| 0 <= j < string_seqs(v@).len() implies string_seqs(v@)[j] != s@ by {
        assert(string_seqs(v@)[j] == v@[j]@);
    }
    false
}

proof fn lemma_push_to_set(s: Seq<Seq<char>>, x: Seq<char>)
    ensures
        s.push(x).to_set() == s.to_set().insert(x),
{
    assert forall|a: Seq<char>| #[trigger] s.push(x).to_set().contains(a) == s.to_set().insert(x).contains(a) by {
        if s.contains(a) {
            let i = choose|i: int| 0 <= i < s.len() && s[i] == a;
            assert(s.push(x)[i] == a);
        }
        if a == x {
            assert(s.push(x)[s.len() as int] == x);
        }
        if s.push(x).contains(a) {
            let i = choose|i: int| 0 <= i < s.push(x).len() && s.push(x)[i] == a;
            if i < s.len() {
                assert(s[i] == a);
            }
        }
    }
    assert(s.push(x).to_set() =~= s.to_set().insert(x));
}

proof fn lemma_unmatched_step(ids: Seq<Seq<char>>, matched: Set<Seq<char>>, i: int)
    requires
        0 <= i < ids.len(),
    ensures
        unmatched(ids.subrange(0, i + 1), matched) == unmatched(ids.subrange(0, i), matched) + (if matched.contains(
            ids[i],
        ) {
            Seq::<Seq<char>>::empty()
        } else {
            seq![ids[i]]
        }),
{
    assert(ids.subrange(0, i + 1).drop_last() == ids.subrange(0, i));
}

/// Close the open batch in place.
fn close_batch(batch: &mut Option<OpenBatch>, messages: &mut Vec<Message>, repaired: &mut usize)
    requires
        *old(repaired) <= old(messages)@.len(),
    ensures
        ({
            let before = ReplayState {
                messages: msg_views(old(messages)@),
                title: None,
                skipped: 0,
                repaired: *old(repaired) as nat,
                batch: batch_view(*old(batch)),
            };
            &&& msg_views(final(messages)@) == close(before).messages
            &&& *final(repaired) == close(before).repaired
            &&& *final(batch) is None
        }),
        *final(repaired) <= final(messages)@.len(),
{
    let open = match batch.take() {
        None => {
            return;
        },
        Some(o) => o,
    };
    let ghost m0 = msg_views(messages@);
    let ghost r0 = *repaired as nat;
    let ghost ids = string_seqs(open.ids@);
    let ghost mset = string_seqs(open.matched@).to_set();
    let mut i: usize = 0;
    while i < open.ids.len()
        invariant
            i <= open.ids@.len(),
            ids == string_seqs(open.ids@),
            mset == string_seqs(open.matched@).to_set(),
            msg_views(messages@) == m0 + unmatched(ids.subrange(0, i as int), mset).map_values(
                |id: Seq<char>| interrupted(id),
            ),
            *repaired == r0 + unmatched(ids.subrange(0, i as int), mset).len(),
            *repaired <= messages@.len(),
        decreases open.ids.len() - i,
    {
        proof {
            lemma_unmatched_step(ids, mset, i as int);
            assert(ids[i as int] == open.ids@[i as int]@);
        }
        let id = open.ids[i].as_str();
        let found = holds(&open.matched, id);
        assert(found == mset.contains(ids[i as int]));
        if !found {
            let ghost before = messages@;
            let patched = Message::tool_result(id, "Error: interrupted");
            proof {
                assert(calls_view(patched.tool_calls@) =~= Seq::empty());
                assert(parts_view(patched.parts@) =~= seq!["Error: interrupted"@]);
                assert(msg_view(patched) == interrupted(id@));
            }
            messages.push(patched);
            assert(msg_views(messages@) == msg_views(before).push(interrupted(id@)));
            let n = messages.len();
            *repaired = *repaired + 1;
            assert(*repaired <= n);
        }
        i = i + 1;
    }
    assert(ids.subrange(0, open.ids@.len() as int) == ids);
}

fn ids_of(calls: &Vec<ToolCall>) -> (r: Vec<String>)
    ensures
        string_seqs(r@) == call_ids(calls_view(calls@)),
{
    let mut r: Vec<String> = Vec::new();
    let mut i: usize = 0;
    while i < calls.len()
        invariant
            i <= calls@.len(),
            string_seqs(r@) == call_ids(calls_view(calls@)).subrange(0, i as int),
        decreases calls.len() - i,
    {
        let ghost before = r@;
        r.push(calls[i].id.clone());
        proof {
            assert(string_seqs(r@) == string_seqs(before).push(calls@[i as int].id@));
            assert(call_ids(calls_view(calls@))[i as int] == call_view(calls@[i as int]).0);
        }
        i = i + 1;
    }
    r
}

/// Replay a log's records into a history (see the module documentation).
pub fn replay_records(records: Vec<Record>) -> (r: Replayed)
    ensures
        msg_views(r.messages@) == replayed(record_views(records@)).messages,
        opt_view(r.title) == replayed(record_views(records@)).title,
        r.skipped_records == replayed(record_views(records@)).skipped,
        r.repaired_tool_calls == replayed(record_views(records@)).repaired,
{
    let ghost rs = record_views(records@);
    let mut messages: Vec<Message> = Vec::new();
    let mut title: Option<String> = None;
    let mut skipped: usize = 0;
    let mut repaired: usize = 0;
    let mut batch: Option<OpenBatch> = None;
    let n = records.len();
    let ghost recs = records@;
    for record in it: records.into_iter()
        invariant
            it.seq() == recs,
            rs == record_views(recs),
            n == recs.len(),
            skipped <= it.index(),
            repaired <= messages@.len(),
            ({
                let s = replay(rs.subrange(0, it.index() as int));
                &&& msg_views(messages@) == s.messages
                &&& opt_view(title) == s.title
                &&& skipped == s.skipped
                &&& repaired == s.repaired
                &&& batch_view(batch) == s.batch
            }),
    {
        let ghost k = it.index();
        proof {
            assert(rs.subrange(0, k + 1).drop_last() == rs.subrange(0, k as int));
        }
        match record {
            Record::Malformed => {
                skipped = skipped + 1;
            },
            Record::Title(t) => {
                title = Some(t);
            },
            Record::Message(m) => {
                if m.role == Role::System {
                } else if m.role == Role::Assistant && m.tool_calls.len() > 0 {
                    close_batch(&mut batch, &mut messages, &mut repaired);
                    let ids = ids_of(&m.tool_calls);
                    let ghost before = messages@;
                    let ghost mv = msg_view(m);
                    messages.push(m);
                    assert(msg_views(messages@) == msg_views(before).push(mv));
                    let matched: Vec<String> = Vec::new();
                    assert(string_seqs(matched@).to_set() =~= Set::<Seq<char>>::empty());
                    batch = Some(OpenBatch { ids, matched });
                } else if m.role == Role::Tool {
                    let keep = match (&batch, &m.tool_call_id) {
                        (Some(b), Some(id)) => holds(&b.ids, id.as_str()),
                        _ => false,
                    };
                    if keep {
                        let id = match &m.tool_call_id {
                            Some(i) => i.clone(),
                            None => String::new(),
                        };
                        let ghost before = messages@;
                        let ghost mv = msg_view(m);
                        messages.push(m);
                        assert(msg_views(messages@) == msg_views(before).push(mv));
                        match &mut batch {
                            Some(b) => {
                                let ghost mb = b.matched@;
                                let ghost idv = id@;
                                b.matched.push(id);
                                proof {
                                    assert(string_seqs(b.matched@) == string_seqs(mb).push(idv));
                                    lemma_push_to_set(string_seqs(mb), idv);
                                }
                            },
                            None => {},
                        }
                    }
                } else {
                    close_batch(&mut batch, &mut messages, &mut repaired);
                    let ghost before = messages@;
                    let ghost mv = msg_view(m);
                    messages.push(m);
                    assert(msg_views(messages@) == msg_views(before).push(mv));
                }
            },
        }
    }
    proof {
        assert(rs.subrange(0, n as int) == rs);
    }
    close_batch(&mut batch, &mut messages, &mut repaired);
    Replayed { messages, title, skipped_records: skipped, repaired_tool_calls: repaired }
}

/// A log whose text does not end in a newline has a torn last line: when
/// that line did not parse it is dropped; every other record stays.
pub open spec fn spec_seal(rs: Seq<RecordView>, ends_with_newline: bool) -> Seq<RecordView> {
    if !ends_with_newline && rs.len() > 0 && rs.last() is Malformed {
        rs.drop_last()
    } else {
        rs
    }
}

/// The records of a log read back, with a torn, unreadable last line
/// dropped (see [`spec_seal`]).
pub fn seal_records(records: Vec<Record>, ends_with_newline: bool) -> (r: Vec<Record>)
    ensures
        record_views(r@) == spec_seal(record_views(records@), ends_with_newline),
{
    let mut records = records;
    let n = records.len();
    if !ends_with_newline && n > 0 {
        let torn = match &records[n - 1] {
            Record::Malformed => true,
            _ => false,
        };
        if torn {
            let ghost before = records@;
            records.pop();
            assert(records@ == before.drop_last());
            assert(record_views(records@) == record_views(before).drop_last());
        }
    }
    records
}

/// A log's header must be a session header: its `type` is `session`;
/// otherwise the log at `path` is refused.
pub fn check_header_kind(path: &str, kind: &str) -> (r: Result<(), String>)
    ensures
        r is Ok <==> kind@ == "session"@,
        r matches Err(e) ==> e@ == path@ + ": not a session log (header type "@ + debug_str(kind@) + ")"@,
{
    if eq_str(kind, "session") {
        Ok(())
    } else {
        let mut e = path.to_owned();
        push_str(&mut e, ": not a session log (header type ");
        push_str(&mut e, debug_quoted(kind).as_str());
        push_str(&mut e, ")");
        Err(e)
    }
}

} // verus!
