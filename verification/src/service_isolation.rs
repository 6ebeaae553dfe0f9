//! Service crash isolation: a tier-2 restart advances the service object's
//! generation, which invalidates every cap derived from it.
use vstd::prelude::*;

use crate::counter::{bump, bumped};
use crate::kernel_object::{
    bump_object_generation, ensure_smoke_process, get_cap, object_generation, spec_get_cap,
    Generation, KernelObjectRecord, KernelObjects, ObjectKind, INITIAL_GENERATION,
};
use crate::process::{ProcessId, ProcessMode, ProcessTable};
use crate::service_loader::{bootstrap_root_caps, ceremony_gates_pass, LoaderState};

verus! {

pub struct IsolationState {
    pub tier2_restarts: u64,
    pub generation_bumps: u64,
}

impl IsolationState {
    pub fn new() -> (r: Self)
        ensures
            r.tier2_restarts == 0 && r.generation_bumps == 0,
    {
        IsolationState { tier2_restarts: 0, generation_bumps: 0 }
    }
}

pub fn tier2_restart_count(st: &IsolationState) -> (r: u64)
    ensures
        r == st.tier2_restarts,
{
    st.tier2_restarts
}

pub fn generation_bump_count(st: &IsolationState) -> (r: u64)
    ensures
        r == st.generation_bumps,
{
    st.generation_bumps
}

/// Tier-2 restart of the service behind `service_cap_slot` of `pid`: the
/// slot must hold a cap on a live service object, whose generation is then
/// advanced.
pub fn restart_service_tier2(
    st: &mut IsolationState,
    objs: &mut KernelObjects,
    procs: &ProcessTable,
    pid: ProcessId,
    service_cap_slot: u32,
) -> (r: bool)
    requires
        procs.wf(),
    ensures
        r == (spec_get_cap(procs, pid, service_cap_slot) matches Some(c) && c.kind == ObjectKind::Service
            && old(objs).has_object(c.object_id)),
        r ==> final(st).generation_bumps == bumped(old(st).generation_bumps) && final(st).tier2_restarts
            == bumped(old(st).tier2_restarts) && final(objs).record(spec_get_cap(procs, pid, service_cap_slot)->Some_0.object_id).generation.0
            == (if old(objs).record(spec_get_cap(procs, pid, service_cap_slot)->Some_0.object_id).generation.0 == u32::MAX {
                u32::MAX
            } else {
                (old(objs).record(spec_get_cap(procs, pid, service_cap_slot)->Some_0.object_id).generation.0 + 1) as u32
            }),
        !r ==> *final(st) == *old(st) && final(objs).registry@ == old(objs).registry@,
        r ==> final(objs).has_object(spec_get_cap(procs, pid, service_cap_slot)->Some_0.object_id),
        r ==> ({
            let oid = spec_get_cap(procs, pid, service_cap_slot)->Some_0.object_id;
            final(objs).registry@ == old(objs).registry@.insert(
                oid.0,
                KernelObjectRecord { generation: final(objs).record(oid).generation, ..old(objs).record(oid) },
            )
        }),
        final(objs).next_object_id == old(objs).next_object_id,
        final(objs).grants@ == old(objs).grants@,
        final(objs).same_counters(old(objs)),
{
    let cap = match get_cap(procs, pid, service_cap_slot) {
        Some(c) => c,
        None => return false,
    };
    if cap.kind != ObjectKind::Service {
        return false;
    }
    if !bump_object_generation(objs, cap.object_id) {
        return false;
    }
    st.generation_bumps = bump(st.generation_bumps);
    st.tier2_restarts = bump(st.tier2_restarts);
    true
}

/// Isolation smoke: restarting the bootstrapped service moves its
/// generation past the initial one. A smoke process created here gets its
/// root caps, and the smoke passes, exactly when the ceremony's gates pass.
pub fn phase127_service_isolation_smoke(
    st: &mut IsolationState,
    loader: &mut LoaderState,
    objs: &mut KernelObjects,
    procs: &mut ProcessTable,
) -> (r: bool)
    requires
        old(procs).wf(),
    ensures
        final(procs).wf(),
        r ==> final(st).tier2_restarts == bumped(old(st).tier2_restarts),
        crate::kernel_object::fresh_smoke_table(old(procs)) ==> (r <==> ceremony_gates_pass(old(loader))),
        old(procs).smoke_pid is Some && old(procs).has(old(procs).smoke_pid->Some_0)
            && crate::kernel_object::two_free_slots(old(procs), old(procs).smoke_pid->Some_0)
            && ceremony_gates_pass(old(loader)) ==> r,
{
    let pid = match ensure_smoke_process(procs) {
        Some(p) => p,
        None => return false,
    };
    proof {
        if crate::kernel_object::fresh_smoke_table(old(procs)) {
            crate::kernel_object::lemma_count_some_bound(procs.caps_of(pid));
            crate::kernel_object::lemma_empty_caps_free_slots(procs, pid);
        }
    }
    procs.set_process_mode(pid, ProcessMode::Native);
    let slot = match bootstrap_root_caps(loader, objs, procs, pid) {
        Ok(s) => Some(s),
        Err(_) => None,
    };
    let oid = match slot {
        Some(s) => match get_cap(procs, pid, s) {
            Some(c) => Some(c.object_id),
            None => None,
        },
        None => None,
    };
    let gen_before = match oid {
        Some(o) => object_generation(objs, o),
        None => None,
    };
    let restarted = match slot {
        Some(s) => restart_service_tier2(st, objs, procs, pid, s),
        None => false,
    };
    proof {
        if ceremony_gates_pass(old(loader)) && (crate::kernel_object::fresh_smoke_table(old(procs)) || (
        old(procs).smoke_pid is Some && old(procs).has(old(procs).smoke_pid->Some_0)
            && crate::kernel_object::two_free_slots(old(procs), old(procs).smoke_pid->Some_0))) {
            assert(slot is Some);
            assert(oid is Some);
            assert(gen_before == Some(crate::kernel_object::Generation(INITIAL_GENERATION)));
            assert(restarted);
            assert(objs.has_object(oid->Some_0));
        }
    }
    let gen_after = match oid {
        Some(o) => object_generation(objs, o),
        None => None,
    };
    let invalidated = match (gen_before, gen_after) {
        (Some(b), Some(g)) => b.0 == INITIAL_GENERATION && g.0 > INITIAL_GENERATION,
        _ => false,
    };
    procs.set_process_mode(pid, ProcessMode::Compat);
    restarted && invalidated
}

} // verus!
