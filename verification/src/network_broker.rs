//! Network broker stub: socket caps are not granted yet; requests are
//! counted and refused.
use vstd::prelude::*;

use crate::counter::{bump, bumped};
use crate::kernel_object::{ensure_smoke_process, fresh_smoke_table, CapError};
use crate::process::{ProcessId, ProcessTable, MAX_PROCESSES};

verus! {

pub struct NetworkBrokerState {
    pub stub_calls: u64,
}

impl NetworkBrokerState {
    pub fn new() -> (r: Self)
        ensures
            r.stub_calls == 0,
    {
        NetworkBrokerState { stub_calls: 0 }
    }
}

pub fn network_stub_calls(st: &NetworkBrokerState) -> (r: u64)
    ensures
        r == st.stub_calls,
{
    st.stub_calls
}

/// Count the request and refuse it with `NotFound`.
pub fn request_socket_cap(st: &mut NetworkBrokerState, pid: ProcessId) -> (r: Result<u32, CapError>)
    ensures
        r == Err::<u32, CapError>(CapError::NotFound),
        final(st).stub_calls == bumped(old(st).stub_calls),
{
    let _ = pid;
    st.stub_calls = bump(st.stub_calls);
    Err(CapError::NotFound)
}

/// Network broker smoke: a socket request is refused and counted.
pub fn phase125_network_broker_smoke(st: &mut NetworkBrokerState, procs: &mut ProcessTable) -> (r: bool)
    requires
        old(procs).wf(),
    ensures
        final(procs).wf(),
        r == ((old(procs).smoke_pid is Some || old(procs).procs@.len() < MAX_PROCESSES) && old(st).stub_calls < u64::MAX),
        r ==> final(st).stub_calls == bumped(old(st).stub_calls),
{
    let pid = match ensure_smoke_process(procs) {
        Some(p) => p,
        None => return false,
    };
    request_socket_cap(st, pid).is_err() && network_stub_calls(st) > 0
}

} // verus!
