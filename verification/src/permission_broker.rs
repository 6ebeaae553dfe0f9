//! Permission broker: an attenuated cap is minted after a request/ack round
//! trip over the interim IPC bridge.
use vstd::prelude::*;

use crate::counter::{bump, bumped};
use crate::ipc_interim_bridge::{recv, send, InterimBridge};
use crate::kernel_object::{
    ambient_allows, ensure_smoke_process, has_free_slot, mint_cap_for_process, register_object,
    rights_contain, CapError, KernelObjects, ObjectKind, Rights,
};
use crate::process::{ProcessId, ProcessMode, ProcessTable};
use crate::service_loader::{bootstrap_root_caps, ceremony_gates_pass, LoaderState};

verus! {

pub struct PermissionBrokerState {
    pub permission_mints: u64,
}

impl PermissionBrokerState {
    pub fn new() -> (r: Self)
        ensures
            r.permission_mints == 0,
    {
        PermissionBrokerState { permission_mints: 0 }
    }
}

pub fn permission_mint_count(st: &PermissionBrokerState) -> (r: u64)
    ensures
        r == st.permission_mints,
{
    st.permission_mints
}

/// Send the request `perm-req` on the session, take the session's oldest
/// message as the acknowledgement, then register a broker-session object
/// (all rights) and mint `pid` a cap with `rights` on it.
pub fn request_attenuated_cap(
    st: &mut PermissionBrokerState,
    bridge: &mut InterimBridge,
    objs: &mut KernelObjects,
    procs: &mut ProcessTable,
    pid: ProcessId,
    session_id: u32,
    rights: Rights,
) -> (r: Result<u32, CapError>)
    requires
        old(procs).wf(),
    ensures
        final(procs).wf(),
        old(bridge).retired ==> r == Err::<u32, CapError>(CapError::InvalidArgument),
        r is Ok ==> final(st).permission_mints == bumped(old(st).permission_mints)
            && ambient_allows(old(procs), pid) && old(procs).has(pid) && has_free_slot(old(procs), pid)
            && rights_contain(Rights(31), rights),
        r is Err ==> final(st).permission_mints == old(st).permission_mints && final(procs).procs@ == old(procs).procs@,
        final(procs).smoke_pid == old(procs).smoke_pid,
        final(procs).current_pid == old(procs).current_pid,
        !old(bridge).retired && (!old(bridge).has_session((pid.0, session_id)) || old(bridge).session(
            (pid.0, session_id),
        ).len() < crate::ipc_interim_bridge::MAX_QUEUE_PER_SESSION) && ambient_allows(old(procs), pid)
            && old(procs).has(pid) && has_free_slot(old(procs), pid) && rights_contain(Rights(31), rights) ==> r is Ok,
{
    let msg: [u8; 8] = [112u8, 101u8, 114u8, 109u8, 45u8, 114u8, 101u8, 113u8];
    if send(bridge, pid, session_id, &msg).is_err() {
        return Err(CapError::InvalidArgument);
    }
    assert(bridge.has_session((pid.0, session_id)) && bridge.session((pid.0, session_id)).len() > 0);
    if recv(bridge, pid, session_id).is_err() {
        return Err(CapError::InvalidArgument);
    }
    let oid = register_object(objs, ObjectKind::BrokerSession, Rights::all_for_smoke());
    let slot = mint_cap_for_process(objs, procs, pid, oid, rights)?;
    st.permission_mints = bump(st.permission_mints);
    Ok(slot)
}

/// Permission broker smoke: the native smoke process obtains a read cap
/// through the broker.
pub fn smoke_permission_broker(
    st: &mut PermissionBrokerState,
    loader: &mut LoaderState,
    bridge: &mut InterimBridge,
    objs: &mut KernelObjects,
    procs: &mut ProcessTable,
) -> (r: bool)
    requires
        old(procs).wf(),
    ensures
        final(procs).wf(),
        r ==> final(st).permission_mints > 0 && !old(bridge).retired,
        crate::kernel_object::fresh_smoke_table(old(procs)) && !ceremony_gates_pass(old(loader)) ==> !r,
        crate::kernel_object::fresh_smoke_table(old(procs)) && ceremony_gates_pass(old(loader))
            && !old(bridge).retired && (!old(bridge).has_session(((old(procs).procs@.len() + 1) as u64, 10u32))
            || old(bridge).session(((old(procs).procs@.len() + 1) as u64, 10u32)).len()
            < crate::ipc_interim_bridge::MAX_QUEUE_PER_SESSION) && old(st).permission_mints < u64::MAX ==> r,
        old(procs).smoke_pid is Some && old(procs).has(old(procs).smoke_pid->Some_0)
            && crate::kernel_object::spec_cap_count(old(procs), old(procs).smoke_pid->Some_0) > 0
            && crate::kernel_object::three_free_slots(old(procs), old(procs).smoke_pid->Some_0)
            && !old(bridge).retired && (!old(bridge).has_session((old(procs).smoke_pid->Some_0.0, 10u32))
            || old(bridge).session((old(procs).smoke_pid->Some_0.0, 10u32)).len()
            < crate::ipc_interim_bridge::MAX_QUEUE_PER_SESSION) && old(st).permission_mints < u64::MAX ==> r,
{
    let pid = match ensure_smoke_process(procs) {
        Some(p) => p,
        None => return false,
    };
    let ghost fresh = crate::kernel_object::fresh_smoke_table(old(procs));
    proof {
        if fresh {
            crate::kernel_object::lemma_count_some_bound(procs.caps_of(pid));
            crate::kernel_object::lemma_empty_caps_free_slots(procs, pid);
        }
    }
    procs.set_process_mode(pid, ProcessMode::Native);
    let _ = bootstrap_root_caps(loader, objs, procs, pid);
    proof {
        if fresh && !ceremony_gates_pass(old(loader)) {
            assert(!ambient_allows(procs, pid));
        }
    }
    assert((31u32 & 1u32) == 1u32) by (bit_vector);
    let slot = request_attenuated_cap(st, bridge, objs, procs, pid, 10, Rights(Rights::READ));
    let ok = slot.is_ok() && permission_mint_count(st) > 0;
    procs.set_process_mode(pid, ProcessMode::Compat);
    ok
}

} // verus!
