//! What the proxy measures of its work.
use vstd::prelude::*;

verus! {

/// What one compression stage did to one text.
#[derive(Debug, Clone)]
pub struct CompressionEvent {
    pub tokens_before: usize,
    pub tokens_after: usize,
    pub stage_name: String,
    pub reason: String,
}

/// `before - after`, or nothing where there is more after than before.
pub open spec fn saved(before: nat, after: nat) -> nat {
    if before > after {
        (before - after) as nat
    } else {
        0
    }
}

/// What a compression event says.
pub struct EventView {
    pub before: nat,
    pub after: nat,
    pub stage: Seq<char>,
    pub reason: Seq<char>,
}

impl View for CompressionEvent {
    type V = EventView;

    open spec fn view(&self) -> EventView {
        EventView {
            before: self.tokens_before as nat,
            after: self.tokens_after as nat,
            stage: self.stage_name@,
            reason: self.reason@,
        }
    }
}

/// What a list of compression events says.
pub open spec fn event_views(events: Seq<CompressionEvent>) -> Seq<EventView> {
    events.map_values(|e: CompressionEvent| e@)
}

impl CompressionEvent {
    /// The number of tokens that the stage took away.
    pub fn tokens_saved(&self) -> (r: usize)
        ensures
            r == saved(self.tokens_before as nat, self.tokens_after as nat),
    {
        self.tokens_before.saturating_sub(self.tokens_after)
    }
}

/// One tool call of a request, and what deduplication did to its result.
#[derive(Debug, Clone)]
pub struct ToolCallInfo {
    pub tool_name: String,
    pub input_summary: String,
    pub tool_use_id: String,
    pub status: ToolCallStatus,
    pub tokens_saved: usize,
}

/// What is said of a tool call.
pub struct ToolCallView {
    pub name: Seq<char>,
    pub summary: Seq<char>,
    pub id: Seq<char>,
    pub status: ToolCallStatus,
    pub saved: nat,
}

impl View for ToolCallInfo {
    type V = ToolCallView;

    open spec fn view(&self) -> ToolCallView {
        ToolCallView {
            name: self.tool_name@,
            summary: self.input_summary@,
            id: self.tool_use_id@,
            status: self.status,
            saved: self.tokens_saved as nat,
        }
    }
}

/// What is said of a list of tool calls.
pub open spec fn tool_call_views(calls: Seq<ToolCallInfo>) -> Seq<ToolCallView> {
    calls.map_values(|c: ToolCallInfo| c@)
}

#[derive(Debug, Clone, Copy, PartialEq, Eq, Structural)]
pub enum ToolCallStatus {
    Kept,
    Deduped,
}

/// How the semantic cache took part in a request. The similarity of a hit is
/// held as the bits of an IEEE 754 double.
#[derive(Debug, Clone, Copy, PartialEq, Eq, Structural)]
pub enum CacheStatus {
    Hit { similarity_bits: u64 },
    Miss,
    Skipped,
}

/// The totals of a session.
#[derive(Debug, Clone, Copy, PartialEq, Eq, Structural)]
pub struct SessionStats {
    pub total_requests: u64,
    pub total_tokens_original: u64,
    pub total_tokens_compressed: u64,
    pub cache_hits: u64,
    pub cache_misses: u64,
    pub cache_tokens_saved: u64,
}

impl Default for SessionStats {
    fn default() -> (r: Self)
        ensures
            r == (SessionStats {
                total_requests: 0,
                total_tokens_original: 0,
                total_tokens_compressed: 0,
                cache_hits: 0,
                cache_misses: 0,
                cache_tokens_saved: 0,
            }),
    {
        SessionStats {
            total_requests: 0,
            total_tokens_original: 0,
            total_tokens_compressed: 0,
            cache_hits: 0,
            cache_misses: 0,
            cache_tokens_saved: 0,
        }
    }
}

impl SessionStats {
    /// The tokens that compression took away over the whole session.
    pub fn tokens_saved(&self) -> (r: u64)
        ensures
            r == saved(self.total_tokens_original as nat, self.total_tokens_compressed as nat),
    {
        self.total_tokens_original.saturating_sub(self.total_tokens_compressed)
    }
}

} // verus!
