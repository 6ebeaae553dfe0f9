//! Clipboard broker stub: clipboard caps are not granted yet; requests are
//! counted and refused.
use vstd::prelude::*;

use crate::counter::{bump, bumped};
use crate::kernel_object::{ensure_smoke_process, CapError};
use crate::process::{ProcessId, ProcessTable, MAX_PROCESSES};

verus! {

pub struct ClipboardBrokerState {
    pub stub_calls: u64,
}

impl ClipboardBrokerState {
    pub fn new() -> (r: Self)
        ensures
            r.stub_calls == 0,
    {
        ClipboardBrokerState { stub_calls: 0 }
    }
}

pub fn clipboard_stub_calls(st: &ClipboardBrokerState) -> (r: u64)
    ensures
        r == st.stub_calls,
{
    st.stub_calls
}

/// Count the request and refuse it with `NotFound`.
pub fn request_clipboard_cap(st: &mut ClipboardBrokerState, pid: ProcessId) -> (r: Result<u32, CapError>)
    ensures
        r == Err::<u32, CapError>(CapError::NotFound),
        final(st).stub_calls == bumped(old(st).stub_calls),
{
    let _ = pid;
    st.stub_calls = bump(st.stub_calls);
    Err(CapError::NotFound)
}

/// Clipboard broker smoke: a clipboard request is refused and counted.
pub fn smoke_clipboard_broker(st: &mut ClipboardBrokerState, procs: &mut ProcessTable) -> (r: bool)
    requires
        old(procs).wf(),
    ensures
        final(procs).wf(),
        r == ((old(procs).smoke_pid is Some || old(procs).procs@.len() < MAX_PROCESSES) && old(st).stub_calls < u64::MAX),
        r ==> final(st).stub_calls == bumped(old(st).stub_calls),
{
    let pid = match ensure_smoke_process(procs) {
        Some(p) => p,
        None => return false,
    };
    request_clipboard_cap(st, pid).is_err() && clipboard_stub_calls(st) > 0
}

} // verus!
