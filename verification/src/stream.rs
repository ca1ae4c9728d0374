//! Events produced while a completion streams in.
use vstd::prelude::*;

verus! {

/// Why the model stopped generating.
#[derive(Debug, Clone, PartialEq, Eq)]
pub enum StopReason {
    EndTurn,
    ToolUse,
    MaxTokens,
    StopSequence,
    Other(String),
}

/// One increment of a streamed completion.
#[derive(Debug, Clone)]
pub enum StreamEvent {
    TextDelta(String),
    ToolUseStart { id: String, name: String },
    ToolUseDelta { id: String, partial_json: String },
    ToolUseEnd { id: String },
    Usage { input_tokens: u32, output_tokens: u32 },
    MessageEnd { stop_reason: StopReason },
}

} // verus!
