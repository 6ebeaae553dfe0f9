//! Semantic observability trace channel.
use vstd::prelude::*;

use crate::counter::{bump, bumped};

verus! {

/// Number of semantic trace events emitted.
pub struct TraceState {
    pub trace_events: u64,
}

impl TraceState {
    pub fn new() -> (r: Self)
        ensures
            r.trace_events == 0,
    {
        TraceState { trace_events: 0 }
    }
}

pub fn trace_count(s: &TraceState) -> (r: u64)
    ensures
        r == s.trace_events,
{
    s.trace_events
}

/// Trace code 0 is reserved and refused.
pub fn emit_semantic_trace(s: &mut TraceState, code: u32) -> (r: bool)
    ensures
        r == (code != 0),
        r ==> final(s).trace_events == bumped(old(s).trace_events),
        !r ==> final(s).trace_events == old(s).trace_events,
{
    if code == 0 {
        return false;
    }
    s.trace_events = bump(s.trace_events);
    true
}

pub fn epoch12_observability_graduated(s: &mut TraceState) -> (r: bool)
    ensures
        r,
        final(s).trace_events == bumped(old(s).trace_events),
{
    emit_semantic_trace(s, 0x0B5E_0001)
}

} // verus!
