//! Device broker: grants a read+map cap on a freshly registered device
//! object.
use vstd::prelude::*;

use crate::counter::{bump, bumped};
use crate::kernel_object::{
    ambient_allows, ensure_smoke_process, fresh_smoke_table, has_free_slot, minted_cap, mint_cap_for_process,
    register_object, stored_at, CapError, KernelObjects, ObjectKind, Rights,
};
use crate::process::{ProcessId, ProcessMode, ProcessTable};
use crate::service_loader::{bootstrap_root_caps, ceremony_gates_pass, LoaderState};

verus! {

pub struct DeviceBrokerState {
    pub device_mints: u64,
}

impl DeviceBrokerState {
    pub fn new() -> (r: Self)
        ensures
            r.device_mints == 0,
    {
        DeviceBrokerState { device_mints: 0 }
    }
}

pub fn device_mint_count(st: &DeviceBrokerState) -> (r: u64)
    ensures
        r == st.device_mints,
{
    st.device_mints
}

/// Register a device object (all rights) and mint `pid` a read+map cap on
/// it; the mint goes through the ambient-authority check.
pub fn grant_device_cap(
    st: &mut DeviceBrokerState,
    objs: &mut KernelObjects,
    procs: &mut ProcessTable,
    pid: ProcessId,
    device_local_id: u32,
) -> (r: Result<u32, CapError>)
    requires
        old(procs).wf(),
    ensures
        final(procs).wf(),
        !ambient_allows(old(procs), pid) ==> r == Err::<u32, CapError>(CapError::AmbientDenied),
        ambient_allows(old(procs), pid) ==> (r is Ok <==> (old(procs).has(pid) && has_free_slot(old(procs), pid))),
        ambient_allows(old(procs), pid) && r is Err ==> r == Err::<u32, CapError>(CapError::NoSlot),
        r is Ok ==> final(st).device_mints == bumped(old(st).device_mints) && final(objs).has_object(
            crate::kernel_object::ObjectId(old(objs).next_object_id),
        ) && final(objs).record(crate::kernel_object::ObjectId(old(objs).next_object_id)).kind == ObjectKind::Device
            && stored_at(old(procs), final(procs), pid, r->Ok_0 as int, crate::kernel_object::CapSlotStorage {
                object_id: crate::kernel_object::ObjectId(old(objs).next_object_id),
                kind: ObjectKind::Device,
                generation: crate::kernel_object::Generation(1),
                rights: Rights(5),
            }),
        r is Err ==> final(st).device_mints == old(st).device_mints && final(procs).procs@ == old(procs).procs@,
        final(procs).smoke_pid == old(procs).smoke_pid,
        final(procs).current_pid == old(procs).current_pid,
{
    let oid = register_object(objs, ObjectKind::Device, Rights::all_for_smoke());
    let _ = device_local_id;
    assert((31u32 & 5u32) == 5u32 && (1u32 | 4u32) == 5u32) by (bit_vector);
    let slot = mint_cap_for_process(objs, procs, pid, oid, Rights(Rights::READ | Rights::MAP))?;
    st.device_mints = bump(st.device_mints);
    Ok(slot)
}

/// Device broker smoke: the smoke process, switched to native and given
/// its root caps, is granted a device cap. A smoke process created here
/// gets its root caps exactly when the ceremony's gates pass, and the grant
/// follows them.
pub fn phase124_device_broker_smoke(
    st: &mut DeviceBrokerState,
    loader: &mut LoaderState,
    objs: &mut KernelObjects,
    procs: &mut ProcessTable,
) -> (r: bool)
    requires
        old(procs).wf(),
    ensures
        final(procs).wf(),
        r ==> final(st).device_mints == bumped(old(st).device_mints),
        !r ==> final(st).device_mints == old(st).device_mints,
        fresh_smoke_table(old(procs)) ==> (r <==> ceremony_gates_pass(old(loader))),
        old(procs).smoke_pid is Some && old(procs).has(old(procs).smoke_pid->Some_0)
            && crate::kernel_object::spec_cap_count(old(procs), old(procs).smoke_pid->Some_0) > 0
            && crate::kernel_object::three_free_slots(old(procs), old(procs).smoke_pid->Some_0) ==> r,
{
    let pid = match ensure_smoke_process(procs) {
        Some(p) => p,
        None => return false,
    };
    let ghost fresh = fresh_smoke_table(old(procs));
    proof {
        if fresh {
            crate::kernel_object::lemma_count_some_bound(procs.caps_of(pid));
            crate::kernel_object::lemma_empty_caps_free_slots(procs, pid);
        }
    }
    procs.set_process_mode(pid, ProcessMode::Native);
    let _ = bootstrap_root_caps(loader, objs, procs, pid);
    proof {
        if fresh && !ceremony_gates_pass(old(loader)) {
            assert(!ambient_allows(procs, pid));
        }
    }
    let ok = grant_device_cap(st, objs, procs, pid, 1).is_ok();
    procs.set_process_mode(pid, ProcessMode::Compat);
    ok
}

} // verus!
