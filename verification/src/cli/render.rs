//! The plain-text transcript of a one-shot run: streamed assistant text as
//! is, reasoning as `> `-prefixed rows, raw tool-call deltas suppressed, one
//! line per structural event (turn, tool start, tool result, stop), and the
//! token usage line at the end. Text and reasoning never share a row, and a
//! structural line always starts on a row of its own.
use vstd::prelude::*;
use crate::agent::{AgentEvent, EventView, StopReason, event_view};
use crate::ai::llm::{Delta, DeltaView};
use crate::ai::wire::TokenUsage;
use crate::text::{chars_of, dec, fmt_u128, fmt_usize, push_char, push_str};

verus! {

broadcast use vstd::seq_lib::group_seq_properties;

/// The kind of streamed row left open (without its newline).
#[derive(Clone, Copy, Debug, PartialEq, Eq, Structural)]
pub enum OpenLine {
    Text,
    Reasoning,
}

/// Reasoning text as rows: every row starts with `> `; `at_start` says
/// whether the first char begins a row.
pub open spec fn reasoning_rows(t: Seq<char>, at_start: bool) -> Seq<char>
    decreases t.len(),
{
    if t.len() == 0 {
        Seq::empty()
    } else {
        (if at_start {
            "> "@
        } else {
            Seq::empty()
        }) + seq![t[0]] + reasoning_rows(t.drop_first(), t[0] == '\n')
    }
}

/// Does the text end its row?
pub open spec fn ends_row(t: Seq<char>) -> bool {
    t.len() > 0 && t.last() == '\n'
}

/// The line of a structural event; `None` for a streamed delta.
pub open spec fn structural_line(e: EventView) -> Option<Seq<char>> {
    match e {
        EventView::Turn { turn } => Some("\u{2500}\u{2500} turn "@ + dec(turn as nat) + " \u{2500}\u{2500}"@),
        EventView::ToolStart { name, arguments } => Some("  \u{25b6} "@ + name + " "@ + arguments),
        EventView::ToolResult { name, ok, result } => Some(
            "  "@ + (if ok {
                "\u{2714}"@
            } else {
                "\u{2716}"@
            }) + " "@ + name + ": "@ + result,
        ),
        EventView::Stop(StopReason::Completed) => Some("\u{2713} done"@),
        EventView::Stop(StopReason::MaxIterations) => Some("\u{2716} stopped: max iterations reached"@),
        EventView::Stream(_) => None,
    }
}

/// What one event writes, and the row it leaves open.
pub open spec fn spec_render(open: Option<OpenLine>, e: EventView) -> (Seq<char>, Option<OpenLine>) {
    match e {
        EventView::Stream(DeltaView::Text(t)) => (
            (if open == Some(OpenLine::Reasoning) {
                "\n"@
            } else {
                Seq::empty()
            }) + t,
            if ends_row(t) {
                None
            } else {
                Some(OpenLine::Text)
            },
        ),
        EventView::Stream(DeltaView::Reasoning(t)) => (
            (if open == Some(OpenLine::Text) {
                "\n"@
            } else {
                Seq::empty()
            }) + reasoning_rows(t, open != Some(OpenLine::Reasoning)),
            if ends_row(t) {
                None
            } else {
                Some(OpenLine::Reasoning)
            },
        ),
        EventView::Stream(_) => (Seq::empty(), open),
        _ => (
            (if open is Some {
                "\n"@
            } else {
                Seq::empty()
            }) + structural_line(e).unwrap() + "\n"@,
            None,
        ),
    }
}

/// Is the transcript at the start of a row (empty, or ending in a newline)?
pub open spec fn at_row_start(out: Seq<char>) -> bool {
    out.len() == 0 || out.last() == '\n'
}

proof fn lemma_reasoning_rows_end(t: Seq<char>, at_start: bool)
    requires
        t.len() > 0,
    ensures
        reasoning_rows(t, at_start).len() > 0,
        reasoning_rows(t, at_start).last() == t.last(),
    decreases t.len(),
{
    let head = (if at_start {
        "> "@
    } else {
        Seq::<char>::empty()
    }) + seq![t[0]];
    if t.len() > 1 {
        lemma_reasoning_rows_end(t.drop_first(), t[0] == '\n');
        assert(t.drop_first().last() == t.last());
    } else {
        assert(t.drop_first().len() == 0);
        assert(reasoning_rows(t.drop_first(), t[0] == '\n') == Seq::<char>::empty());
        assert(reasoning_rows(t, at_start) == head);
    }
}

/// The open row is honest: whenever the renderer reports no open row, the
/// transcript is at the start of a row. Every event keeps this, so a
/// structural line or a new stream never runs on into the previous row.
pub proof fn lemma_render_keeps_row_state(out: Seq<char>, open: Option<OpenLine>, e: EventView)
    requires
        open is None ==> at_row_start(out),
    ensures
        spec_render(open, e).1 is None ==> at_row_start(out + spec_render(open, e).0),
{
    let w = spec_render(open, e).0;
    match e {
        EventView::Stream(DeltaView::Text(t)) => {
            if ends_row(t) {
                assert((out + w).last() == t.last());
            }
        },
        EventView::Stream(DeltaView::Reasoning(t)) => {
            if ends_row(t) {
                lemma_reasoning_rows_end(t, open != Some(OpenLine::Reasoning));
                assert((out + w).last() == t.last());
            }
        },
        EventView::Stream(_) => {
            assert(out + w == out);
        },
        _ => {
            reveal_strlit("\n");
            assert((out + w).last() == '\n');
        },
    }
}

/// The cached share of the prompt tokens, in whole percent (0 without
/// prompt tokens).
pub open spec fn cached_percent(u: TokenUsage) -> nat {
    if u.prompt_tokens == 0 {
        0
    } else {
        (u.spec_cached() * 100 / (u.prompt_tokens as int)) as nat
    }
}

/// `tokens: P prompt (C cached, X%) + O completion = T total`.
pub open spec fn spec_usage_summary(u: TokenUsage) -> Seq<char> {
    "tokens: "@ + dec(u.prompt_tokens as nat) + " prompt ("@ + dec(u.spec_cached() as nat) + " cached, "@ + dec(
        cached_percent(u),
    ) + "%) + "@ + dec(u.completion_tokens as nat) + " completion = "@ + dec(u.total_tokens as nat) + " total"@
}

/// The one-line token usage summary.
pub fn usage_summary(u: &TokenUsage) -> (s: String)
    ensures
        s@ == spec_usage_summary(*u),
{
    let cached = u.cached_tokens();
    let pct: u128 = if u.prompt_tokens == 0 {
        0
    } else {
        (cached as u128) * 100 / (u.prompt_tokens as u128)
    };
    let mut s = String::from_str("tokens: ");
    push_str(&mut s, fmt_u128(u.prompt_tokens as u128).as_str());
    push_str(&mut s, " prompt (");
    push_str(&mut s, fmt_u128(cached as u128).as_str());
    push_str(&mut s, " cached, ");
    push_str(&mut s, fmt_u128(pct).as_str());
    push_str(&mut s, "%) + ");
    push_str(&mut s, fmt_u128(u.completion_tokens as u128).as_str());
    push_str(&mut s, " completion = ");
    push_str(&mut s, fmt_u128(u.total_tokens as u128).as_str());
    push_str(&mut s, " total");
    s
}

/// Append reasoning text as `> `-prefixed rows.
fn push_reasoning(out: &mut String, t: &str, at_start: bool)
    ensures
        final(out)@ == old(out)@ + reasoning_rows(t@, at_start),
{
    let cs = chars_of(t);
    let n = cs.len();
    let mut start = at_start;
    let mut i: usize = 0;
    assert(cs@.subrange(0, n as int) == cs@);
    while i < n
        invariant
            i <= n,
            n == cs@.len(),
            old(out)@ + reasoning_rows(cs@, at_start) == out@ + reasoning_rows(cs@.subrange(i as int, n as int), start),
        decreases n - i,
    {
        let ghost rest = cs@.subrange(i as int, n as int);
        assert(rest.drop_first() == cs@.subrange(i + 1, n as int));
        assert(rest[0] == cs@[i as int]);
        if start {
            push_str(out, "> ");
        }
        push_char(out, cs[i]);
        start = cs[i] == '\n';
        i = i + 1;
    }
    assert(cs@.subrange(n as int, n as int) == Seq::<char>::empty());
}

/// A text transcript under construction: what was written, and the kind of
/// row left open.
#[derive(Debug)]
pub struct TextRenderer {
    pub out: String,
    pub open: Option<OpenLine>,
}

impl TextRenderer {
    /// An empty transcript with no open row.
    pub fn new() -> (r: TextRenderer)
        ensures
            r.out@ == Seq::<char>::empty(),
            r.open is None,
    {
        TextRenderer { out: String::new(), open: None }
    }

    /// Write one agent event.
    pub fn render(&mut self, event: &AgentEvent)
        ensures
            final(self).out@ == old(self).out@ + spec_render(old(self).open, event_view(*event)).0,
            final(self).open == spec_render(old(self).open, event_view(*event)).1,
    {
        match event {
            AgentEvent::Stream(Delta::Text(t)) => {
                if self.open == Some(OpenLine::Reasoning) {
                    push_str(&mut self.out, "\n");
                }
                push_str(&mut self.out, t.as_str());
                let cs = chars_of(t.as_str());
                self.open = if cs.len() > 0 && cs[cs.len() - 1] == '\n' {
                    None
                } else {
                    Some(OpenLine::Text)
                };
            },
            AgentEvent::Stream(Delta::Reasoning(t)) => {
                let at_start = self.open != Some(OpenLine::Reasoning);
                if self.open == Some(OpenLine::Text) {
                    push_str(&mut self.out, "\n");
                }
                push_reasoning(&mut self.out, t.as_str(), at_start);
                let cs = chars_of(t.as_str());
                self.open = if cs.len() > 0 && cs[cs.len() - 1] == '\n' {
                    None
                } else {
                    Some(OpenLine::Reasoning)
                };
            },
            AgentEvent::Stream(_) => {},
            _ => {
                if self.open.is_some() {
                    push_str(&mut self.out, "\n");
                }
                match event {
                    AgentEvent::Turn { turn } => {
                        push_str(&mut self.out, "\u{2500}\u{2500} turn ");
                        push_str(&mut self.out, fmt_usize(*turn).as_str());
                        push_str(&mut self.out, " \u{2500}\u{2500}");
                    },
                    AgentEvent::ToolStart { name, arguments } => {
                        push_str(&mut self.out, "  \u{25b6} ");
                        push_str(&mut self.out, name.as_str());
                        push_str(&mut self.out, " ");
                        push_str(&mut self.out, arguments.as_str());
                    },
                    AgentEvent::ToolResult { name, ok, result } => {
                        push_str(&mut self.out, "  ");
                        push_str(&mut self.out, if *ok { "\u{2714}" } else { "\u{2716}" });
                        push_str(&mut self.out, " ");
                        push_str(&mut self.out, name.as_str());
                        push_str(&mut self.out, ": ");
                        push_str(&mut self.out, result.as_str());
                    },
                    AgentEvent::Stop(StopReason::Completed) => {
                        push_str(&mut self.out, "\u{2713} done");
                    },
                    AgentEvent::Stop(StopReason::MaxIterations) => {
                        push_str(&mut self.out, "\u{2716} stopped: max iterations reached");
                    },
                    AgentEvent::Stream(_) => {},
                }
                push_str(&mut self.out, "\n");
                self.open = None;
            },
        }
    }

    /// Write the token usage line, on a row of its own after a blank
    /// separator.
    pub fn render_usage(&mut self, u: &TokenUsage)
        ensures
            final(self).out@ == old(self).out@ + "\n"@ + spec_usage_summary(*u) + "\n"@,
            final(self).open is None,
    {
        push_str(&mut self.out, "\n");
        push_str(&mut self.out, usage_summary(u).as_str());
        push_str(&mut self.out, "\n");
        self.open = None;
    }
}

} // verus!
