//! OOM policy: tiered suspend/terminate counters, service memory budget
//! enforcement and shed acknowledgements.
use vstd::prelude::*;

use crate::counter::{bump, bumped};
use crate::kernel_object::ensure_smoke_process;
use crate::process::{ProcessId, ProcessTable, MAX_PROCESSES};
use crate::service_loader::{mem_budget_status, LoaderState};

verus! {

/// `oom.shed.v1` acknowledgement of a tier-1 shed notification.
#[derive(Debug, Clone, Copy)]
pub struct OomShedAck {
    pub service_id: u64,
    pub shed_bytes: u64,
    pub ack_token: u32,
}

pub struct OomState {
    pub suspends: u64,
    pub terminates: u64,
    pub budget_enforced: u64,
    pub shed_acks: u64,
}

impl OomState {
    pub fn new() -> (r: Self)
        ensures
            r.suspends == 0 && r.terminates == 0 && r.budget_enforced == 0 && r.shed_acks == 0,
    {
        OomState { suspends: 0, terminates: 0, budget_enforced: 0, shed_acks: 0 }
    }
}

pub fn shed_ack_count(st: &OomState) -> (r: u64)
    ensures
        r == st.shed_acks,
{
    st.shed_acks
}

/// Count an acknowledgement; a zero token is not one.
pub fn record_shed_ack(st: &mut OomState, ack: &OomShedAck) -> (r: bool)
    ensures
        r == (ack.ack_token != 0),
        r ==> final(st).shed_acks == bumped(old(st).shed_acks),
        !r ==> final(st).shed_acks == old(st).shed_acks,
        final(st).suspends == old(st).suspends && final(st).terminates == old(st).terminates
            && final(st).budget_enforced == old(st).budget_enforced,
{
    if ack.ack_token == 0 {
        return false;
    }
    st.shed_acks = bump(st.shed_acks);
    true
}

pub fn suspend_count(st: &OomState) -> (r: u64)
    ensures
        r == st.suspends,
{
    st.suspends
}

pub fn terminate_count(st: &OomState) -> (r: u64)
    ensures
        r == st.terminates,
{
    st.terminates
}

pub fn budget_enforced_count(st: &OomState) -> (r: u64)
    ensures
        r == st.budget_enforced,
{
    st.budget_enforced
}

/// Tier 2: suspend the service (frozen in memory).
pub fn suspend_service(st: &mut OomState, pid: ProcessId)
    ensures
        final(st).suspends == bumped(old(st).suspends),
        final(st).terminates == old(st).terminates && final(st).budget_enforced == old(st).budget_enforced
            && final(st).shed_acks == old(st).shed_acks,
{
    let _ = pid;
    st.suspends = bump(st.suspends);
}

/// Tier 3: terminate the service after its cap teardown window.
pub fn terminate_service(st: &mut OomState, pid: ProcessId)
    ensures
        final(st).terminates == bumped(old(st).terminates),
        final(st).suspends == old(st).suspends && final(st).budget_enforced == old(st).budget_enforced
            && final(st).shed_acks == old(st).shed_acks,
{
    let _ = pid;
    st.terminates = bump(st.terminates);
}

/// Allow `requested` more bytes only when used plus requested (saturating)
/// stays within the total budget; a refusal is counted.
pub fn enforce_mem_budget(st: &mut OomState, loader: &LoaderState, requested: u64) -> (r: bool)
    ensures
        r == (loader.mem_used + requested <= loader.mem_budget.total_bytes || (loader.mem_used + requested > u64::MAX && u64::MAX <= loader.mem_budget.total_bytes)),
        !r ==> final(st).budget_enforced == bumped(old(st).budget_enforced),
        r ==> final(st).budget_enforced == old(st).budget_enforced,
        final(st).suspends == old(st).suspends && final(st).terminates == old(st).terminates
            && final(st).shed_acks == old(st).shed_acks,
{
    let (total, used, _free) = mem_budget_status(loader);
    if used.saturating_add(requested) > total {
        st.budget_enforced = bump(st.budget_enforced);
        return false;
    }
    true
}

/// The budget refuses a request for half the address space.
pub open spec fn half_space_refused(loader: &LoaderState) -> bool {
    let want = loader.mem_used + u64::MAX / 2;
    !(want <= loader.mem_budget.total_bytes || (want > u64::MAX && u64::MAX <= loader.mem_budget.total_bytes))
}

/// OOM smoke: suspend, a refused half-address-space request, terminate and
/// a shed acknowledgement all register.
pub fn phase147_oom_smoke(st: &mut OomState, loader: &LoaderState, procs: &mut ProcessTable) -> (r: bool)
    requires
        old(procs).wf(),
    ensures
        final(procs).wf(),
        r ==> final(st).suspends > 0 && final(st).budget_enforced > 0 && final(st).terminates > 0
            && final(st).shed_acks > 0,
        r == ((old(procs).smoke_pid is Some || old(procs).procs@.len() < MAX_PROCESSES)
            && half_space_refused(loader) && old(st).suspends != u64::MAX && old(st).terminates != u64::MAX
            && old(st).budget_enforced != u64::MAX && old(st).shed_acks != u64::MAX),
{
    let pid = match ensure_smoke_process(procs) {
        Some(p) => p,
        None => return false,
    };
    suspend_service(st, pid);
    let over_budget = !enforce_mem_budget(st, loader, u64::MAX / 2);
    terminate_service(st, pid);
    let ack = OomShedAck { service_id: 1, shed_bytes: 4096, ack_token: 0xA0E5 };
    record_shed_ack(st, &ack);
    suspend_count(st) > 0 && over_budget && budget_enforced_count(st) > 0 && terminate_count(st) > 0
        && shed_ack_count(st) > 0
}

/// Epoch-7 graduation check: the OOM smoke.
pub fn epoch7_oom_graduated(st: &mut OomState, loader: &LoaderState, procs: &mut ProcessTable) -> (r: bool)
    requires
        old(procs).wf(),
    ensures
        final(procs).wf(),
        r ==> final(st).suspends > 0 && final(st).budget_enforced > 0 && final(st).terminates > 0
            && final(st).shed_acks > 0,
        r == ((old(procs).smoke_pid is Some || old(procs).procs@.len() < MAX_PROCESSES)
            && half_space_refused(loader) && old(st).suspends != u64::MAX && old(st).terminates != u64::MAX
            && old(st).budget_enforced != u64::MAX && old(st).shed_acks != u64::MAX),
{
    phase147_oom_smoke(st, loader, procs)
}

} // verus!
