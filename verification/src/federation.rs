//! Federation: forwarding of endpoint tokens between nodes.
use vstd::prelude::*;

use crate::counter::{bump, bumped};
use crate::ipc_endpoints::{p134_ordering_corpus, IpcEndpoints};
use crate::process::ProcessTable;

verus! {

pub struct FederationState {
    pub ops: u64,
    pub nodes: u64,
}

impl FederationState {
    pub fn new() -> (r: Self)
        ensures
            r.ops == 0 && r.nodes == 1,
    {
        FederationState { ops: 0, nodes: 1 }
    }
}

pub fn node_count(st: &FederationState) -> (r: u64)
    ensures
        r == st.nodes,
{
    st.nodes
}

pub fn federation_ops(st: &FederationState) -> (r: u64)
    ensures
        r == st.ops,
{
    st.ops
}

/// Forward an endpoint token to `node_id`; node 0 and token 0 are invalid.
pub fn forward_endpoint_token(st: &mut FederationState, node_id: u32, token: u64) -> (r: bool)
    ensures
        r == (node_id != 0 && token != 0),
        r ==> final(st).ops == bumped(old(st).ops),
        !r ==> final(st).ops == old(st).ops,
        final(st).nodes == old(st).nodes,
{
    if node_id == 0 || token == 0 {
        return false;
    }
    st.ops = bump(st.ops);
    true
}

/// Epoch-12 graduation: a forwarded token and the endpoint ordering corpus.
pub fn epoch12_federation_graduated(
    st: &mut FederationState,
    eps: &mut IpcEndpoints,
    procs: &mut ProcessTable,
) -> (r: bool)
    requires
        old(procs).wf(),
    ensures
        final(procs).wf(),
        r ==> final(st).ops == bumped(old(st).ops) && old(st).ops != u64::MAX,
        old(st).ops != u64::MAX && (old(procs).smoke_pid is Some || old(procs).procs@.len()
            < crate::process::MAX_PROCESSES) && !old(eps).has_endpoint(
            crate::ipc_endpoints::EndpointId(old(eps).next_endpoint),
        ) ==> r,
{
    forward_endpoint_token(st, 1, 0xFED_EA7E) && federation_ops(st) > 0 && p134_ordering_corpus(eps, procs)
}

} // verus!
