//! Post-150 epoch integration gates: the loom-pass and release-scorecard
//! marks that the epoch milestones check.
use crate::counter::{bump, bumped};
use crate::ipc_endpoints::{endpoint_send_count, IpcEndpoints};
use vstd::prelude::*;

verus! {

/// Marks recorded by the post-150 gates.
pub struct Post150State {
    pub loom_passes: u64,
    pub release_scorecard: u64,
}

impl Post150State {
    pub fn new() -> (r: Self)
        ensures
            r.loom_passes == 0 && r.release_scorecard == 0,
    {
        Post150State { loom_passes: 0, release_scorecard: 0 }
    }
}

/// Records one pass of the loom harness.
pub fn mark_loom_pass(st: &mut Post150State)
    ensures
        final(st).loom_passes == bumped(old(st).loom_passes),
        final(st).release_scorecard == old(st).release_scorecard,
{
    st.loom_passes = bump(st.loom_passes);
}

pub fn loom_pass_count(st: &Post150State) -> (r: u64)
    ensures
        r == st.loom_passes,
{
    st.loom_passes
}

/// Loom harness graduation: records a pass; holds once an endpoint message has
/// been sent.
pub fn phase151_loom_smoke(st: &mut Post150State, eps: &IpcEndpoints) -> (r: bool)
    ensures
        final(st).loom_passes == bumped(old(st).loom_passes),
        final(st).release_scorecard == old(st).release_scorecard,
        r == (eps.sends > 0),
{
    mark_loom_pass(st);
    endpoint_send_count(eps) > 0
}

/// The release scorecard has been marked.
pub fn release_scorecard_ok(st: &Post150State) -> (r: bool)
    ensures
        r == (st.release_scorecard > 0),
{
    st.release_scorecard > 0
}

/// Marks the release scorecard.
pub fn mark_release_scorecard(st: &mut Post150State)
    ensures
        final(st).release_scorecard == bumped(old(st).release_scorecard),
        final(st).loom_passes == old(st).loom_passes,
{
    st.release_scorecard = bump(st.release_scorecard);
}

} // verus!
