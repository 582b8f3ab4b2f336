//! The data that crosses the provider seam: streaming deltas, the finish
//! reason, and the shared cancellation handle.
use vstd::prelude::*;
use std::sync::Arc;
use std::sync::atomic::{AtomicBool, Ordering};

verus! {

/// A shared cancellation handle threaded through a run: one shared flag
/// observed by the runner boundaries, the provider's interruptible body read
/// and cancellable tool executions. Cloning shares the same flag; the caller
/// resets it at the start of every turn and cancels it when the user
/// interrupts. The flag is shared state, so no contract here promises what a
/// later read of it returns.
#[derive(Clone, Debug)]
pub struct CancelToken {
    flag: Arc<AtomicBool>,
}

impl CancelToken {
    /// A fresh, uncancelled token.
    pub fn new() -> (t: CancelToken) {
        CancelToken { flag: Arc::new(AtomicBool::new(false)) }
    }

    /// Set the flag: every boundary and interruptible read notices on its
    /// next check.
    pub fn cancel(&self) {
        self.flag.store(true, Ordering::SeqCst);
    }

    /// Clear the flag (the caller does this before each new turn).
    pub fn reset(&self) {
        self.flag.store(false, Ordering::SeqCst);
    }

    /// Whether a cancel has been requested.
    pub fn is_cancelled(&self) -> (b: bool) {
        self.flag.load(Ordering::SeqCst)
    }
}

impl Default for CancelToken {
    fn default() -> (t: CancelToken) {
        CancelToken::new()
    }
}

/// Why a turn of generation ended.
#[derive(Clone, Copy, Debug, PartialEq, Eq, Structural)]
pub enum FinishReason {
    Stop,
    ToolCalls,
}

/// One streaming delta from the provider: the unit surfaced to the runtime.
#[derive(Clone, Debug, PartialEq, Eq)]
pub enum Delta {
    /// Thinking tokens (`reasoning_content`).
    Reasoning(String),
    /// Assistant text fragment.
    Text(String),
    /// First fragment of a tool call: carries `id` + `name` (and `index`).
    ToolCallStart { index: usize, id: String, name: String },
    /// Subsequent fragment: only an arguments slice.
    ToolCallArgs { index: usize, fragment: String },
    /// End-of-turn marker.
    Done(FinishReason),
}

/// The mathematical value of a delta: its strings as char sequences.
pub ghost enum DeltaView {
    Reasoning(Seq<char>),
    Text(Seq<char>),
    ToolCallStart { index: usize, id: Seq<char>, name: Seq<char> },
    ToolCallArgs { index: usize, fragment: Seq<char> },
    Done(FinishReason),
}

pub open spec fn delta_view(d: Delta) -> DeltaView {
    match d {
        Delta::Reasoning(s) => DeltaView::Reasoning(s@),
        Delta::Text(s) => DeltaView::Text(s@),
        Delta::ToolCallStart { index, id, name } => DeltaView::ToolCallStart { index, id: id@, name: name@ },
        Delta::ToolCallArgs { index, fragment } => DeltaView::ToolCallArgs { index, fragment: fragment@ },
        Delta::Done(r) => DeltaView::Done(r),
    }
}

pub open spec fn deltas_view(ds: Seq<Delta>) -> Seq<DeltaView> {
    ds.map_values(|d: Delta| delta_view(d))
}

} // verus!
