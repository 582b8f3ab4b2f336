//! The decisions of the provider's streaming read: usage accumulation, the
//! handling of one SSE event, and the step function of the interruptible
//! body read. The HTTP client and the socket reads themselves run around
//! this module; they hand it what a read returned and do what it answers.
use vstd::prelude::*;
use crate::ai::llm::{Delta, DeltaView, deltas_view};
use crate::ai::wire::{PromptTokensDetails, TokenUsage, WireChunk, chunk_to_deltas, choices_deltas};
use crate::text::push_str;

verus! {

/// Does adding `sample` to `total` stay within `u64` in every counter?
pub open spec fn usage_fits(total: TokenUsage, sample: TokenUsage) -> bool {
    &&& total.prompt_tokens + sample.prompt_tokens <= u64::MAX
    &&& total.completion_tokens + sample.completion_tokens <= u64::MAX
    &&& total.total_tokens + sample.total_tokens <= u64::MAX
    &&& total.spec_cached() + sample.spec_cached() <= u64::MAX
    &&& total.spec_cache_creation() + sample.spec_cache_creation() <= u64::MAX
}

/// Sum a usage sample into an accumulator. Cache-hit details accumulate
/// alongside the three headline counters; a sample without details leaves
/// the accumulated details untouched.
pub fn accumulate_usage(total: &mut TokenUsage, sample: TokenUsage)
    requires
        usage_fits(*old(total), sample),
    ensures
        final(total).prompt_tokens == old(total).prompt_tokens + sample.prompt_tokens,
        final(total).completion_tokens == old(total).completion_tokens + sample.completion_tokens,
        final(total).total_tokens == old(total).total_tokens + sample.total_tokens,
        final(total).prompt_tokens_details == (match sample.prompt_tokens_details {
            None => old(total).prompt_tokens_details,
            Some(d) => Some(
                PromptTokensDetails {
                    cached_tokens: (old(total).spec_cached() + d.cached_tokens) as u64,
                    cache_creation_input_tokens: (old(total).spec_cache_creation()
                        + d.cache_creation_input_tokens) as u64,
                },
            ),
        }),
{
    total.prompt_tokens = total.prompt_tokens + sample.prompt_tokens;
    total.completion_tokens = total.completion_tokens + sample.completion_tokens;
    total.total_tokens = total.total_tokens + sample.total_tokens;
    match sample.prompt_tokens_details {
        Some(details) => {
            let acc = match total.prompt_tokens_details {
                Some(a) => a,
                None => PromptTokensDetails::default(),
            };
            total.prompt_tokens_details = Some(
                PromptTokensDetails {
                    cached_tokens: acc.cached_tokens + details.cached_tokens,
                    cache_creation_input_tokens: acc.cache_creation_input_tokens
                        + details.cache_creation_input_tokens,
                },
            );
        },
        None => {},
    }
}

/// Accumulated totals report the sum of the samples: after a sample is
/// added, each headline counter and each cache counter grows by exactly the
/// sample's value.
pub proof fn lemma_accumulate_adds_cache_counts(before: TokenUsage, sample: TokenUsage, after: TokenUsage)
    requires
        usage_fits(before, sample),
        after.prompt_tokens == before.prompt_tokens + sample.prompt_tokens,
        after.completion_tokens == before.completion_tokens + sample.completion_tokens,
        after.total_tokens == before.total_tokens + sample.total_tokens,
        after.prompt_tokens_details == (match sample.prompt_tokens_details {
            None => before.prompt_tokens_details,
            Some(d) => Some(
                PromptTokensDetails {
                    cached_tokens: (before.spec_cached() + d.cached_tokens) as u64,
                    cache_creation_input_tokens: (before.spec_cache_creation()
                        + d.cache_creation_input_tokens) as u64,
                },
            ),
        }),
    ensures
        after.spec_cached() == before.spec_cached() + sample.spec_cached(),
        after.spec_cache_creation() == before.spec_cache_creation() + sample.spec_cache_creation(),
{
}

/// Feed one SSE event into the sink: `None` is the end-of-stream marker and
/// changes nothing; a parsed chunk records its usage when it carries one (only
/// the final chunk does) and appends its deltas, in order, to `sink`.
pub fn emit_event(chunk: Option<&WireChunk>, usage: &mut Option<TokenUsage>, sink: &mut Vec<Delta>)
    ensures
        match chunk {
            None => *final(usage) == *old(usage) && final(sink)@ == old(sink)@,
            Some(c) => {
                &&& *final(usage) == (if c.usage is Some {
                    c.usage
                } else {
                    *old(usage)
                })
                &&& deltas_view(final(sink)@) == deltas_view(old(sink)@) + choices_deltas(c.choices@)
            },
        },
{
    match chunk {
        None => {},
        Some(c) => {
            if c.usage.is_some() {
                *usage = c.usage;
            }
            let mut ds = chunk_to_deltas(c);
            sink.append(&mut ds);
        },
    }
}

/// How an interruptible body read ended.
#[derive(Clone, Copy, Debug, PartialEq, Eq, Structural)]
pub enum ReadEnd {
    /// The reader hit EOF: the body ended on its own terms.
    Complete,
    /// The cancel flag was set: the read stopped between chunks.
    Cancelled,
}

/// What one read of the body returned.
#[derive(Clone, Debug, PartialEq, Eq)]
pub enum ReadOutcome {
    /// This many bytes (more than zero) arrived.
    Bytes(usize),
    /// End of the body.
    Eof,
    /// The read was interrupted and may be retried.
    Interrupted,
    /// The read failed with this message.
    Failed(String),
}

/// Where the read loop stands.
#[derive(Debug, PartialEq, Eq)]
pub enum ReadEvent {
    /// About to read (the start, or after a retry or a delivered chunk).
    Ready,
    /// A read returned.
    Read(ReadOutcome),
    /// The last chunk was handed to the sink, which answered this.
    Delivered(Result<(), String>),
}

/// What the read loop does next.
#[derive(Clone, Debug, PartialEq, Eq)]
pub enum ReadAction {
    /// Read the next chunk.
    Read,
    /// Hand the first `n` bytes just read to the sink.
    Deliver(usize),
    /// Stop with this end.
    Finish(ReadEnd),
    /// Stop with this error.
    Fail(String),
}

/// The view of a read action.
pub ghost enum ReadActionView {
    Read,
    Deliver(usize),
    Finish(ReadEnd),
    Fail(Seq<char>),
}

pub open spec fn action_view(a: ReadAction) -> ReadActionView {
    match a {
        ReadAction::Read => ReadActionView::Read,
        ReadAction::Deliver(n) => ReadActionView::Deliver(n),
        ReadAction::Finish(e) => ReadActionView::Finish(e),
        ReadAction::Fail(m) => ReadActionView::Fail(m@),
    }
}

/// The read loop's rule: before every read the cancel flag is checked and a
/// set flag stops the read as cancelled; bytes go to the sink, whose error
/// stops the read and propagates verbatim; end of body completes; an
/// interrupted read is retried; a failed read stops with
/// `read body failed: <message>`.
pub open spec fn spec_read_step(cancelled: bool, event: ReadEvent) -> ReadActionView {
    match event {
        ReadEvent::Read(ReadOutcome::Bytes(n)) => ReadActionView::Deliver(n),
        ReadEvent::Read(ReadOutcome::Eof) => ReadActionView::Finish(ReadEnd::Complete),
        ReadEvent::Read(ReadOutcome::Failed(m)) => ReadActionView::Fail("read body failed: "@ + m@),
        ReadEvent::Delivered(Err(e)) => ReadActionView::Fail(e@),
        _ => if cancelled {
            ReadActionView::Finish(ReadEnd::Cancelled)
        } else {
            ReadActionView::Read
        },
    }
}

/// One step of the interruptible body read: given whether cancellation was
/// requested and what just happened, the next action.
pub fn read_step(cancelled: bool, event: ReadEvent) -> (a: ReadAction)
    ensures
        action_view(a) == spec_read_step(cancelled, event),
{
    match event {
        ReadEvent::Read(ReadOutcome::Bytes(n)) => ReadAction::Deliver(n),
        ReadEvent::Read(ReadOutcome::Eof) => ReadAction::Finish(ReadEnd::Complete),
        ReadEvent::Read(ReadOutcome::Failed(m)) => {
            let mut msg = String::from_str("read body failed: ");
            push_str(&mut msg, m.as_str());
            ReadAction::Fail(msg)
        },
        ReadEvent::Delivered(Err(e)) => ReadAction::Fail(e),
        _ => if cancelled {
            ReadAction::Finish(ReadEnd::Cancelled)
        } else {
            ReadAction::Read
        },
    }
}

} // verus!
