//! Service loader contract: resource stubs and E-00 admission control.
use vstd::prelude::*;

use crate::counter::{bump, bumped};
use crate::kernel_object::{
    ambient_allows, cap_count_for_process, close_cap_for_process, get_cap, has_free_slot,
    lemma_count_some_bound, lemma_store_free_slots, mint_cap_for_process, mint_cap_for_process_bootstrap,
    minted_cap, register_object, rights_contain, stored_at, ObjectId,
    spec_cap_count, spec_get_cap, three_free_slots, CapSlotStorage, two_free_slots, CapError, KernelObjects, ObjectKind, Rights,
    INITIAL_GENERATION, MAX_CAPS,
};
use crate::process::{ProcessId, ProcessMode, ProcessTable, MAX_PROCESSES};
use crate::security::Credentials;

verus! {

/// E-00 transient: admission queue saturated (caller may retry).
pub const E00_SATURATED: u32 = 0xE000;
/// Remediable structural: cap quota exceeded (release caps and retry).
pub const ERR_CAP_QUOTA: u32 = 0xE101;
/// System: memory budget exceeded.
pub const ERR_MEM_BUDGET: u32 = 0xE200;

#[derive(Debug, Clone, Copy, PartialEq, Eq, Structural)]
pub enum ErrorClass {
    Transient,
    StructuralRemediable,
    System,
}

#[derive(Debug, Clone, Copy, PartialEq, Eq, Structural)]
pub struct NativeError {
    pub code: u32,
    pub class: ErrorClass,
}

impl NativeError {
    pub fn e00_saturated() -> (r: Self)
        ensures
            r == (NativeError { code: E00_SATURATED, class: ErrorClass::Transient }),
    {
        NativeError { code: E00_SATURATED, class: ErrorClass::Transient }
    }

    pub fn cap_quota() -> (r: Self)
        ensures
            r == (NativeError { code: ERR_CAP_QUOTA, class: ErrorClass::StructuralRemediable }),
    {
        NativeError { code: ERR_CAP_QUOTA, class: ErrorClass::StructuralRemediable }
    }

    pub fn mem_budget() -> (r: Self)
        ensures
            r == (NativeError { code: ERR_MEM_BUDGET, class: ErrorClass::System }),
    {
        NativeError { code: ERR_MEM_BUDGET, class: ErrorClass::System }
    }
}

/// Memory budget stub: the total and the part held back for the fault
/// handler.
#[derive(Debug, Clone, Copy)]
pub struct MemBudgetStub {
    pub total_bytes: u64,
    pub fault_handler_reserved_bytes: u64,
}

pub open spec fn sat_sub(a: u64, b: u64) -> u64 {
    if a >= b {
        (a - b) as u64
    } else {
        0
    }
}

impl MemBudgetStub {
    pub open spec fn spec_allocatable(&self, used: u64) -> u64 {
        sat_sub(sat_sub(self.total_bytes, self.fault_handler_reserved_bytes), used)
    }

    pub fn qemu_default() -> (r: Self)
        ensures
            r.total_bytes == 256 * 1024,
            r.fault_handler_reserved_bytes == 32 * 1024,
    {
        MemBudgetStub { total_bytes: 256 * 1024, fault_handler_reserved_bytes: 32 * 1024 }
    }

    /// Bytes still available after the reserve and `used`, floored at zero.
    pub fn allocatable(&self, used: u64) -> (r: u64)
        ensures
            r == self.spec_allocatable(used),
    {
        self.total_bytes.saturating_sub(self.fault_handler_reserved_bytes).saturating_sub(used)
    }
}

/// Per-service cap slot limit (endpoint creation included).
pub const DEFAULT_SERVICE_CAP_QUOTA: usize = 8;

/// Loader state: the budget, the memory in use, the E-00 admission window,
/// the bootstrap ceremony flag and the reject counters.
pub struct LoaderState {
    pub mem_budget: MemBudgetStub,
    pub mem_used: u64,
    pub e00_inflight: u32,
    pub e00_max_inflight: u32,
    pub bootstrap_active: bool,
    pub bootstrap_mints: u32,
    pub quota_rejects: u64,
    pub e00_rejects: u64,
    pub budget_rejects: u64,
}

pub open spec fn bumped32(x: u32) -> u32 {
    if x == u32::MAX {
        0
    } else {
        (x + 1) as u32
    }
}

pub open spec fn dropped32(x: u32) -> u32 {
    if x == 0 {
        u32::MAX
    } else {
        (x - 1) as u32
    }
}

impl LoaderState {
    pub fn new() -> (r: Self)
        ensures
            r.mem_budget.total_bytes == 256 * 1024,
            r.mem_budget.fault_handler_reserved_bytes == 32 * 1024,
            r.mem_used == 0,
            r.e00_inflight == 0,
            r.e00_max_inflight == 4,
            !r.bootstrap_active,
            r.bootstrap_mints == 0,
            r.quota_rejects == 0,
            r.e00_rejects == 0,
            r.budget_rejects == 0,
    {
        LoaderState {
            mem_budget: MemBudgetStub::qemu_default(),
            mem_used: 0,
            e00_inflight: 0,
            e00_max_inflight: 4,
            bootstrap_active: false,
            bootstrap_mints: 0,
            quota_rejects: 0,
            e00_rejects: 0,
            budget_rejects: 0,
        }
    }
}

/// (total, used, allocatable) of the memory budget.
pub fn mem_budget_status(st: &LoaderState) -> (r: (u64, u64, u64))
    ensures
        r == (st.mem_budget.total_bytes, st.mem_used, st.mem_budget.spec_allocatable(st.mem_used)),
{
    (st.mem_budget.total_bytes, st.mem_used, st.mem_budget.allocatable(st.mem_used))
}

/// (quota rejects, E-00 rejects, budget rejects, bootstrap mints).
pub fn stub_status(st: &LoaderState) -> (r: (u64, u64, u64, u32))
    ensures
        r == (st.quota_rejects, st.e00_rejects, st.budget_rejects, st.bootstrap_mints),
{
    (st.quota_rejects, st.e00_rejects, st.budget_rejects, st.bootstrap_mints)
}

pub open spec fn spec_cap_quota(procs: &ProcessTable, pid: ProcessId) -> nat {
    if procs.mode_of(pid) == ProcessMode::Native {
        DEFAULT_SERVICE_CAP_QUOTA as nat
    } else {
        MAX_CAPS as nat
    }
}

/// Native services get the service quota; compat processes the whole table.
pub fn cap_quota_for_process(procs: &ProcessTable, pid: ProcessId) -> (r: usize)
    requires
        procs.wf(),
    ensures
        r == spec_cap_quota(procs, pid),
{
    if procs.process_mode(pid) == ProcessMode::Native {
        DEFAULT_SERVICE_CAP_QUOTA
    } else {
        MAX_CAPS
    }
}

/// Refuse (and count) when `pid` already holds its quota of caps.
pub fn check_cap_quota(st: &mut LoaderState, procs: &ProcessTable, pid: ProcessId) -> (r: Result<
    (),
    NativeError,
>)
    requires
        procs.wf(),
    ensures
        spec_cap_count(procs, pid) >= spec_cap_quota(procs, pid) ==> r == Err::<(), NativeError>(
            NativeError { code: ERR_CAP_QUOTA, class: ErrorClass::StructuralRemediable },
        ) && final(st).quota_rejects == bumped(old(st).quota_rejects),
        spec_cap_count(procs, pid) < spec_cap_quota(procs, pid) ==> r is Ok && final(st).quota_rejects
            == old(st).quota_rejects,
        final(st).mem_used == old(st).mem_used,
        final(st).mem_budget == old(st).mem_budget,
        final(st).e00_inflight == old(st).e00_inflight,
        final(st).e00_max_inflight == old(st).e00_max_inflight,
        final(st).bootstrap_active == old(st).bootstrap_active,
        final(st).bootstrap_mints == old(st).bootstrap_mints,
        final(st).e00_rejects == old(st).e00_rejects,
        final(st).budget_rejects == old(st).budget_rejects,
{
    let held = cap_count_for_process(procs, pid);
    if held >= cap_quota_for_process(procs, pid) {
        st.quota_rejects = bump(st.quota_rejects);
        return Err(NativeError::cap_quota());
    }
    Ok(())
}

/// Refuse (and count) a need larger than what the budget still allows.
pub fn check_mem_budget(st: &mut LoaderState, need_bytes: u64) -> (r: Result<(), NativeError>)
    ensures
        old(st).mem_budget.spec_allocatable(old(st).mem_used) < need_bytes ==> r == Err::<
            (),
            NativeError,
        >(NativeError { code: ERR_MEM_BUDGET, class: ErrorClass::System })
            && final(st).budget_rejects == bumped(old(st).budget_rejects),
        old(st).mem_budget.spec_allocatable(old(st).mem_used) >= need_bytes ==> r is Ok
            && final(st).budget_rejects == old(st).budget_rejects,
        final(st).mem_used == old(st).mem_used,
        final(st).mem_budget == old(st).mem_budget,
        final(st).e00_inflight == old(st).e00_inflight,
        final(st).e00_max_inflight == old(st).e00_max_inflight,
        final(st).bootstrap_active == old(st).bootstrap_active,
        final(st).bootstrap_mints == old(st).bootstrap_mints,
        final(st).e00_rejects == old(st).e00_rejects,
        final(st).quota_rejects == old(st).quota_rejects,
{
    if st.mem_budget.allocatable(st.mem_used) < need_bytes {
        st.budget_rejects = bump(st.budget_rejects);
        return Err(NativeError::mem_budget());
    }
    Ok(())
}

/// Check the budget, then charge `bytes` to it.
pub fn charge_mem_budget(st: &mut LoaderState, bytes: u64) -> (r: Result<(), NativeError>)
    ensures
        old(st).mem_budget.spec_allocatable(old(st).mem_used) < bytes ==> r == Err::<
            (),
            NativeError,
        >(NativeError { code: ERR_MEM_BUDGET, class: ErrorClass::System })
            && final(st).budget_rejects == bumped(old(st).budget_rejects)
            && final(st).mem_used == old(st).mem_used,
        old(st).mem_budget.spec_allocatable(old(st).mem_used) >= bytes ==> r is Ok
            && final(st).budget_rejects == old(st).budget_rejects
            && final(st).mem_used == old(st).mem_used + bytes,
        final(st).mem_budget == old(st).mem_budget,
        final(st).e00_inflight == old(st).e00_inflight,
        final(st).e00_max_inflight == old(st).e00_max_inflight,
        final(st).bootstrap_active == old(st).bootstrap_active,
        final(st).bootstrap_mints == old(st).bootstrap_mints,
        final(st).e00_rejects == old(st).e00_rejects,
        final(st).quota_rejects == old(st).quota_rejects,
{
    check_mem_budget(st, bytes)?;
    st.mem_used = st.mem_used + bytes;
    Ok(())
}

/// Give back `bytes`, never below zero.
pub fn release_mem_budget(st: &mut LoaderState, bytes: u64)
    ensures
        final(st).mem_used == sat_sub(old(st).mem_used, bytes),
        final(st).mem_budget == old(st).mem_budget,
        final(st).e00_inflight == old(st).e00_inflight,
        final(st).e00_max_inflight == old(st).e00_max_inflight,
        final(st).bootstrap_active == old(st).bootstrap_active,
        final(st).bootstrap_mints == old(st).bootstrap_mints,
        final(st).e00_rejects == old(st).e00_rejects,
        final(st).quota_rejects == old(st).quota_rejects,
        final(st).budget_rejects == old(st).budget_rejects,
{
    let take = if bytes < st.mem_used {
        bytes
    } else {
        st.mem_used
    };
    st.mem_used = st.mem_used - take;
}

/// E-00 admission: at most `e00_max_inflight` load operations at once; a
/// saturated window is refused (and counted) as a transient error.
pub fn e00_try_admit(st: &mut LoaderState) -> (r: Result<u32, NativeError>)
    ensures
        old(st).e00_inflight >= old(st).e00_max_inflight ==> r == Err::<u32, NativeError>(
            NativeError { code: E00_SATURATED, class: ErrorClass::Transient },
        ) && final(st).e00_rejects == bumped(old(st).e00_rejects) && final(st).e00_inflight
            == old(st).e00_inflight,
        old(st).e00_inflight < old(st).e00_max_inflight ==> r == Ok::<u32, NativeError>(
            (old(st).e00_inflight + 1) as u32,
        ) && final(st).e00_inflight == old(st).e00_inflight + 1 && final(st).e00_rejects
            == old(st).e00_rejects,
        final(st).mem_used == old(st).mem_used,
        final(st).mem_budget == old(st).mem_budget,
        final(st).e00_max_inflight == old(st).e00_max_inflight,
        final(st).bootstrap_active == old(st).bootstrap_active,
        final(st).bootstrap_mints == old(st).bootstrap_mints,
        final(st).quota_rejects == old(st).quota_rejects,
        final(st).budget_rejects == old(st).budget_rejects,
{
    let cur = st.e00_inflight;
    if cur >= st.e00_max_inflight {
        st.e00_rejects = bump(st.e00_rejects);
        return Err(NativeError::e00_saturated());
    }
    st.e00_inflight = cur + 1;
    Ok(cur + 1)
}

/// Leave the admission window (the in-flight count wraps below zero as an
/// atomic decrement does).
pub fn e00_release_admission(st: &mut LoaderState)
    ensures
        final(st).e00_inflight == dropped32(old(st).e00_inflight),
        final(st).mem_used == old(st).mem_used,
        final(st).mem_budget == old(st).mem_budget,
        final(st).e00_max_inflight == old(st).e00_max_inflight,
        final(st).bootstrap_active == old(st).bootstrap_active,
        final(st).bootstrap_mints == old(st).bootstrap_mints,
        final(st).e00_rejects == old(st).e00_rejects,
        final(st).quota_rejects == old(st).quota_rejects,
        final(st).budget_rejects == old(st).budget_rejects,
{
    st.e00_inflight = if st.e00_inflight == 0 {
        u32::MAX
    } else {
        st.e00_inflight - 1
    };
}

/// A bootstrap mint is allowed only during the ceremony, for a native
/// process that holds no cap yet.
pub fn bootstrap_mint_allowed(st: &LoaderState, procs: &ProcessTable, pid: ProcessId) -> (r: bool)
    requires
        procs.wf(),
    ensures
        r == (st.bootstrap_active && procs.mode_of(pid) == ProcessMode::Native && spec_cap_count(
            procs,
            pid,
        ) == 0),
{
    st.bootstrap_active && procs.process_mode(pid) == ProcessMode::Native && cap_count_for_process(
        procs,
        pid,
    ) == 0
}

/// The loader state is untouched apart from the fields an operation names.
pub open spec fn same_budget(a: &LoaderState, b: &LoaderState) -> bool {
    &&& a.mem_budget == b.mem_budget
    &&& a.e00_max_inflight == b.e00_max_inflight
}

/// The ceremony's E-00 admission and its 4096-byte budget check both pass.
pub open spec fn ceremony_gates_pass(st: &LoaderState) -> bool {
    st.e00_inflight < st.e00_max_inflight && st.mem_budget.spec_allocatable(st.mem_used) >= 4096
}

/// The read and delegate cap on the broker session that the ceremony mints.
pub open spec fn broker_root_cap(c: Option<CapSlotStorage>) -> bool {
    c matches Some(cap) && cap.kind == ObjectKind::BrokerSession && cap.rights.0 == (1u32 | 8u32)
}

/// Mint one root cap during the ceremony: while the bootstrap window is open
/// for `pid` (see `bootstrap_mint_allowed`) the mint needs no prior cap;
/// otherwise it is an ordinary mint, which a process holding caps passes.
fn ceremony_mint(
    st: &LoaderState,
    objs: &mut KernelObjects,
    procs: &mut ProcessTable,
    pid: ProcessId,
    object_id: ObjectId,
    rights: Rights,
) -> (r: Result<u32, CapError>)
    requires
        old(procs).wf(),
        st.bootstrap_active,
        old(procs).has(pid) ==> old(procs).mode_of(pid) == ProcessMode::Native,
    ensures
        final(procs).wf(),
        final(objs).same_objects(old(objs)),
        old(objs).has_object(object_id) && rights_contain(old(objs).record(object_id).max_rights, rights)
            ==> {
            &&& r is Ok <==> (old(procs).has(pid) && has_free_slot(old(procs), pid))
            &&& r is Err ==> final(procs).procs@ == old(procs).procs@
            &&& r is Ok ==> stored_at(old(procs), final(procs), pid, r->Ok_0 as int, minted_cap(old(objs), object_id, rights))
        },
        !old(objs).has_object(object_id) ==> r is Err && final(procs).procs@ == old(procs).procs@,
        final(procs).smoke_pid == old(procs).smoke_pid,
        final(procs).current_pid == old(procs).current_pid,
{
    if bootstrap_mint_allowed(st, procs, pid) {
        mint_cap_for_process_bootstrap(objs, procs, pid, object_id, rights)
    } else {
        mint_cap_for_process(objs, procs, pid, object_id, rights)
    }
}

/// Bootstrap cap ceremony: switch `pid` to native, open the ceremony, pass
/// the E-00 and budget gates, register the service and broker objects and
/// mint the root caps (a read-write cap on the service, then a read and
/// delegate cap on the broker session). While the ceremony is open a
/// native process that holds no cap yet receives them without prior cap
/// authorization. Every early exit leaves the ceremony open; success
/// closes it, charges the budget, counts the mint and leaves the admission
/// window.
pub fn bootstrap_root_caps(
    st: &mut LoaderState,
    objs: &mut KernelObjects,
    procs: &mut ProcessTable,
    pid: ProcessId,
) -> (r: Result<u32, CapError>)
    requires
        old(procs).wf(),
    ensures
        final(procs).wf(),
        same_budget(final(st), old(st)),
        old(procs).has(pid) ==> final(procs).mode_of(pid) == ProcessMode::Native,
        old(st).e00_inflight >= old(st).e00_max_inflight ==> r == Err::<u32, CapError>(
            CapError::InvalidArgument,
        ) && final(st).bootstrap_active,
        old(st).e00_inflight < old(st).e00_max_inflight && old(st).mem_budget.spec_allocatable(
            old(st).mem_used,
        ) < 4096 ==> r == Err::<u32, CapError>(CapError::InvalidArgument)
            && final(st).bootstrap_active,
        !old(procs).has(pid) ==> r is Err,
        old(procs).has(pid) && !ceremony_gates_pass(old(st)) ==> final(procs).caps_of(pid) == old(procs).caps_of(pid),
        r is Ok ==> !final(st).bootstrap_active && final(st).bootstrap_mints == bumped32(
            old(st).bootstrap_mints,
        ) && final(st).e00_inflight == old(st).e00_inflight && old(procs).has(pid),
        r is Ok ==> spec_cap_count(final(procs), pid) == spec_cap_count(old(procs), pid) + 2,
        r is Ok ==> final(st).mem_used == old(st).mem_used + 4096 && final(st).budget_rejects == old(st).budget_rejects
            && final(st).e00_rejects == old(st).e00_rejects && final(st).quota_rejects == old(st).quota_rejects,
        old(procs).has(pid) ==> final(procs).has(pid),
        old(procs).has(pid) && spec_cap_count(old(procs), pid) > 0 ==> spec_cap_count(final(procs), pid) > 0,
        old(procs).has(pid) && three_free_slots(old(procs), pid) ==> has_free_slot(final(procs), pid),
        ceremony_gates_pass(old(st)) && old(procs).has(pid) && two_free_slots(old(procs), pid) ==> r is Ok,
        r is Ok ==> (spec_get_cap(final(procs), pid, r->Ok_0) matches Some(c) && c.kind == ObjectKind::Service
            && c.rights.0 == 3 && final(objs).has_object(c.object_id)
            && final(objs).record(c.object_id).kind == ObjectKind::Service
            && final(objs).record(c.object_id).generation.0 == INITIAL_GENERATION
            && c.generation.0 == INITIAL_GENERATION),
        r is Ok ==> exists|s: u32| s != r->Ok_0 && broker_root_cap(#[trigger] spec_get_cap(final(procs), pid, s)),
        final(procs).smoke_pid == old(procs).smoke_pid && final(procs).current_pid == old(procs).current_pid,
        final(procs).procs@.len() == old(procs).procs@.len(),
{
    procs.set_process_mode(pid, ProcessMode::Native);
    st.bootstrap_active = true;
    if e00_try_admit(st).is_err() {
        return Err(CapError::InvalidArgument);
    }
    if check_mem_budget(st, 4096).is_err() {
        return Err(CapError::InvalidArgument);
    }
    let service_oid = register_object(objs, ObjectKind::Service, Rights::all_for_smoke());
    let broker_oid = register_object(objs, ObjectKind::BrokerSession, Rights::all_for_smoke());
    assert((31u32 & 3u32) == 3u32 && (31u32 & (1u32 | 8u32)) == (1u32 | 8u32)) by (bit_vector);
    let ghost p0 = *procs;
    let cap0 = ceremony_mint(st, objs, procs, pid, service_oid, Rights::read_write())?;
    proof {
        lemma_store_free_slots(&p0, procs, pid, cap0 as int, minted_cap(objs, service_oid, Rights(3)));
    }
    let ghost p1 = *procs;
    let ghost o1 = *objs;
    let cap1 = ceremony_mint(st, objs, procs, pid, broker_oid, Rights(Rights::READ | Rights::DELEGATE))?;
    proof {
        lemma_store_free_slots(&p1, procs, pid, cap1 as int, minted_cap(&o1, broker_oid, Rights(1u32 | 8u32)));
        assert(procs.caps_of(pid)[cap0 as int] == p1.caps_of(pid)[cap0 as int]);
        assert(cap1 != cap0);
        assert(broker_root_cap(spec_get_cap(procs, pid, cap1)));
    }
    let _ = charge_mem_budget(st, 4096);
    st.bootstrap_mints = if st.bootstrap_mints == u32::MAX {
        0
    } else {
        st.bootstrap_mints + 1
    };
    st.bootstrap_active = false;
    e00_release_admission(st);
    Ok(cap0)
}

/// Load a service under the stubs: E-00 admission, memory budget and cap
/// quota gates in that order, then register the service object and mint a
/// read-write cap on it (a failed mint is reported as a quota error).
pub fn load_service_with_stubs(
    st: &mut LoaderState,
    objs: &mut KernelObjects,
    procs: &mut ProcessTable,
    pid: ProcessId,
    mem_need: u64,
) -> (r: Result<u32, NativeError>)
    requires
        old(procs).wf(),
    ensures
        final(procs).wf(),
        same_budget(final(st), old(st)),
        old(st).e00_inflight >= old(st).e00_max_inflight ==> r == Err::<u32, NativeError>(
            NativeError { code: E00_SATURATED, class: ErrorClass::Transient },
        ),
        old(st).e00_inflight < old(st).e00_max_inflight && old(st).mem_budget.spec_allocatable(
            old(st).mem_used,
        ) < mem_need ==> r == Err::<u32, NativeError>(
            NativeError { code: ERR_MEM_BUDGET, class: ErrorClass::System },
        ),
        old(st).e00_inflight < old(st).e00_max_inflight && old(st).mem_budget.spec_allocatable(
            old(st).mem_used,
        ) >= mem_need && spec_cap_count(old(procs), pid) >= spec_cap_quota(old(procs), pid) ==> r
            == Err::<u32, NativeError>(
            NativeError { code: ERR_CAP_QUOTA, class: ErrorClass::StructuralRemediable },
        ),
        old(st).e00_inflight < old(st).e00_max_inflight && old(st).mem_budget.spec_allocatable(
            old(st).mem_used,
        ) >= mem_need && spec_cap_count(old(procs), pid) < spec_cap_quota(old(procs), pid) ==> {
            &&& r is Ok <==> (ambient_allows(old(procs), pid) && old(procs).has(pid) && has_free_slot(
                old(procs),
                pid,
            ))
            &&& r is Err ==> r == Err::<u32, NativeError>(
                NativeError { code: ERR_CAP_QUOTA, class: ErrorClass::StructuralRemediable },
            )
        },
        r is Ok ==> final(st).e00_inflight == old(st).e00_inflight && final(st).mem_used
            == old(st).mem_used + mem_need,
{
    let _ticket = e00_try_admit(st)?;
    check_mem_budget(st, mem_need)?;
    check_cap_quota(st, procs, pid)?;
    let oid = register_object(objs, ObjectKind::Service, Rights::read_write());
    assert((3u32 & 3u32) == 3u32) by (bit_vector);
    let slot = match mint_cap_for_process(objs, procs, pid, oid, Rights::read_write()) {
        Ok(s) => s,
        Err(_) => return Err(NativeError::cap_quota()),
    };
    let _ = charge_mem_budget(st, mem_need);
    e00_release_admission(st);
    Ok(slot)
}

/// Service-loader smoke: bootstrap ceremony on a fresh process (its root
/// caps), E-00 saturation, cap quota reject and retry, memory budget
/// reject; it passes when every step behaves as described.
pub fn phase121_service_loader_smoke(
    st: &mut LoaderState,
    objs: &mut KernelObjects,
    procs: &mut ProcessTable,
) -> (r: bool)
    requires
        old(procs).wf(),
    ensures
        final(procs).wf(),
        r ==> final(st).bootstrap_mints == bumped32(old(st).bootstrap_mints),
        final(st).mem_used == 0,
        final(st).mem_budget == old(st).mem_budget,
        old(procs).procs@.len() < MAX_PROCESSES ==> final(st).e00_max_inflight == 4,
        old(procs).procs@.len() < MAX_PROCESSES ==> final(procs).procs@.len() == old(procs).procs@.len() + 1,
        old(procs).procs@.len() >= MAX_PROCESSES ==> final(procs).procs@ == old(procs).procs@,
        final(procs).smoke_pid == old(procs).smoke_pid,
{
    let ghost n = old(procs).procs@.len() + 1;
    let pid = match procs.create_process(Credentials::kernel()) {
        Some(p) => p,
        None => {
            st.mem_used = 0;
            return false;
        },
    };
    proof {
        lemma_count_some_bound(procs.caps_of(pid));
    }
    let bootstrap_slot = bootstrap_root_caps(st, objs, procs, pid);
    let post_bootstrap_count = cap_count_for_process(procs, pid);
    let bootstrap_ok = bootstrap_slot.is_ok() && post_bootstrap_count >= 2;

    st.e00_max_inflight = 1;
    let t1 = e00_try_admit(st).is_ok();
    let e00_fail = e00_try_admit(st).is_err();
    e00_release_admission(st);
    st.e00_max_inflight = 4;

    procs.set_process_mode(pid, ProcessMode::Native);
    let quota = cap_quota_for_process(procs, pid);
    let mut filled = cap_count_for_process(procs, pid);
    let mut rounds: usize = 0;
    while filled < quota && rounds < MAX_CAPS
        invariant
            procs.wf(),
            rounds <= MAX_CAPS,
            procs.procs@.len() == n,
            procs.smoke_pid == old(procs).smoke_pid,
        decreases MAX_CAPS - rounds,
    {
        let oid = register_object(objs, ObjectKind::Endpoint, Rights(Rights::READ));
        if mint_cap_for_process(objs, procs, pid, oid, Rights(Rights::READ)).is_err() {
            break;
        }
        filled = cap_count_for_process(procs, pid);
        rounds += 1;
    }
    let at_quota = cap_count_for_process(procs, pid) >= quota;
    let quota_reject = check_cap_quota(st, procs, pid).is_err();
    let mut slot: u32 = 0;
    while (slot as usize) < MAX_CAPS
        invariant
            procs.wf(),
            procs.procs@.len() == n,
            procs.smoke_pid == old(procs).smoke_pid,
        decreases MAX_CAPS - slot,
    {
        if get_cap(procs, pid, slot).is_some() {
            let _ = close_cap_for_process(objs, procs, pid, slot);
            break;
        }
        slot += 1;
    }
    let retry_ok = check_cap_quota(st, procs, pid).is_ok();

    st.mem_used = st.mem_budget.total_bytes;
    let budget_fail = check_mem_budget(st, 1).is_err();
    st.mem_used = 0;

    procs.set_process_mode(pid, ProcessMode::Compat);

    bootstrap_ok && t1 && e00_fail && at_quota && quota_reject && retry_ok && budget_fail
}

} // verus!
