//! Constitutional foundation constants and the subsystem smoke aggregators
//! run over the whole kernel state.
use vstd::prelude::*;

use crate::counter::bumped;
use crate::ipc_endpoints::{create_endpoint, recv, send, EndpointError, EndpointId, IpcEndpoints, MAX_ENDPOINT_QUEUE};
use crate::kernel_object::ensure_smoke_process;
use crate::process::ProcessId;
use crate::service_loader::stub_status;
use crate::system::System;

verus! {

/// The constitutional documentation is ratified.
pub const CONSTITUTIONAL_FOUNDATION_RATIFIED: bool = true;

/// The compat syscall surface is frozen as the v1 ABI.
pub const ARE_ABI_V1: bool = true;

/// The native semantic laws are ratified as v1.
pub const ARE_SEMANTICS_V1: bool = true;

/// Reserved native syscall id range base.
pub const NATIVE_SYSCALL_ID_BASE: u64 = 256;

/// Object ids are immutable; generations invalidate caps.
pub const IMMUTABLE_OBJECT_IDENTITY: bool = true;

/// The service-loader smoke.
pub fn smoke_service_loader_init(sys: &mut System) -> (r: bool)
    requires
        old(sys).wf(),
    ensures
        final(sys).wf(),
        r ==> final(sys).loader.bootstrap_mints == crate::service_loader::bumped32(old(sys).loader.bootstrap_mints),
        final(sys).loader.mem_used == 0,
        final(sys).loader.mem_budget == old(sys).loader.mem_budget,
        old(sys).procs.procs@.len() < crate::process::MAX_PROCESSES ==> final(sys).loader.e00_max_inflight == 4,
        old(sys).procs.procs@.len() < crate::process::MAX_PROCESSES ==> final(sys).procs.procs@.len()
            == old(sys).procs.procs@.len() + 1,
        old(sys).procs.procs@.len() >= crate::process::MAX_PROCESSES ==> final(sys).procs.procs@ == old(sys).procs.procs@,
{
    crate::service_loader::phase121_service_loader_smoke(&mut sys.loader, &mut sys.objs, &mut sys.procs)
}

/// The permission-broker smoke.
pub fn smoke_permission_broker(sys: &mut System) -> (r: bool)
    requires
        old(sys).wf(),
    ensures
        final(sys).wf(),
        r ==> final(sys).permission_broker.permission_mints > 0,
        crate::kernel_object::fresh_smoke_table(&old(sys).procs) && !crate::service_loader::ceremony_gates_pass(&old(sys).loader) ==> !r,
        crate::kernel_object::fresh_smoke_table(&old(sys).procs) && crate::service_loader::ceremony_gates_pass(&old(sys).loader)
            && !old(sys).bridge.retired && (!old(sys).bridge.has_session(((old(sys).procs.procs@.len() + 1) as u64, 10u32))
            || old(sys).bridge.session(((old(sys).procs.procs@.len() + 1) as u64, 10u32)).len()
            < crate::ipc_interim_bridge::MAX_QUEUE_PER_SESSION) && old(sys).permission_broker.permission_mints
            < u64::MAX ==> r,
        old(sys).procs.smoke_pid is Some && old(sys).procs.has(old(sys).procs.smoke_pid->Some_0)
            && crate::kernel_object::spec_cap_count(&old(sys).procs, old(sys).procs.smoke_pid->Some_0) > 0
            && crate::kernel_object::three_free_slots(&old(sys).procs, old(sys).procs.smoke_pid->Some_0)
            && !old(sys).bridge.retired && (!old(sys).bridge.has_session((old(sys).procs.smoke_pid->Some_0.0, 10u32))
            || old(sys).bridge.session((old(sys).procs.smoke_pid->Some_0.0, 10u32)).len()
            < crate::ipc_interim_bridge::MAX_QUEUE_PER_SESSION) && old(sys).permission_broker.permission_mints
            < u64::MAX ==> r,
{
    crate::permission_broker::smoke_permission_broker(
        &mut sys.permission_broker,
        &mut sys.loader,
        &mut sys.bridge,
        &mut sys.objs,
        &mut sys.procs,
    )
}

/// The device-broker smoke.
pub fn smoke_device_broker(sys: &mut System) -> (r: bool)
    requires
        old(sys).wf(),
    ensures
        final(sys).wf(),
        r ==> final(sys).device_broker.device_mints == crate::counter::bumped(old(sys).device_broker.device_mints),
        crate::kernel_object::fresh_smoke_table(&old(sys).procs) ==> (r <==> crate::service_loader::ceremony_gates_pass(&old(sys).loader)),
        old(sys).procs.smoke_pid is Some && old(sys).procs.has(old(sys).procs.smoke_pid->Some_0)
            && crate::kernel_object::spec_cap_count(&old(sys).procs, old(sys).procs.smoke_pid->Some_0) > 0
            && crate::kernel_object::three_free_slots(&old(sys).procs, old(sys).procs.smoke_pid->Some_0) ==> r,
{
    crate::device_broker::phase124_device_broker_smoke(&mut sys.device_broker, &mut sys.loader, &mut sys.objs, &mut sys.procs)
}

/// The network-broker smoke.
pub fn smoke_network_broker(sys: &mut System) -> (r: bool)
    requires
        old(sys).wf(),
    ensures
        final(sys).wf(),
        r ==> final(sys).network_broker.stub_calls == crate::counter::bumped(old(sys).network_broker.stub_calls),
        r == ((old(sys).procs.smoke_pid is Some || old(sys).procs.procs@.len() < crate::process::MAX_PROCESSES)
            && old(sys).network_broker.stub_calls < u64::MAX),
{
    crate::network_broker::phase125_network_broker_smoke(&mut sys.network_broker, &mut sys.procs)
}

/// The clipboard-broker smoke.
pub fn smoke_clipboard_broker(sys: &mut System) -> (r: bool)
    requires
        old(sys).wf(),
    ensures
        final(sys).wf(),
        r ==> final(sys).clipboard_broker.stub_calls == crate::counter::bumped(old(sys).clipboard_broker.stub_calls),
        r == ((old(sys).procs.smoke_pid is Some || old(sys).procs.procs@.len() < crate::process::MAX_PROCESSES)
            && old(sys).clipboard_broker.stub_calls < u64::MAX),
{
    crate::clipboard_broker::smoke_clipboard_broker(&mut sys.clipboard_broker, &mut sys.procs)
}

/// The service-isolation smoke.
pub fn smoke_service_isolation(sys: &mut System) -> (r: bool)
    requires
        old(sys).wf(),
    ensures
        final(sys).wf(),
        r ==> final(sys).isolation.tier2_restarts == crate::counter::bumped(old(sys).isolation.tier2_restarts),
        crate::kernel_object::fresh_smoke_table(&old(sys).procs) ==> (r <==> crate::service_loader::ceremony_gates_pass(&old(sys).loader)),
        old(sys).procs.smoke_pid is Some && old(sys).procs.has(old(sys).procs.smoke_pid->Some_0)
            && crate::kernel_object::two_free_slots(&old(sys).procs, old(sys).procs.smoke_pid->Some_0)
            && crate::service_loader::ceremony_gates_pass(&old(sys).loader) ==> r,
{
    crate::service_isolation::phase127_service_isolation_smoke(&mut sys.isolation, &mut sys.loader, &mut sys.objs, &mut sys.procs)
}

/// The native-manifest smoke.
pub fn smoke_native_manifest(sys: &mut System) -> (r: bool)
    requires
        old(sys).wf(),
    ensures
        final(sys).wf(),
        old(sys).manifests.loads < u64::MAX && old(sys).manifests.rejections < u64::MAX ==> r,
{
    crate::native_manifest::smoke_g4_smoke(&mut sys.manifests)
}

/// The scoped-grant smoke.
pub fn smoke_scoped_grants(sys: &mut System) -> (r: bool)
    requires
        old(sys).wf(),
    ensures
        final(sys).wf(),
        r,
{
    crate::native_manifest::smoke_scoped_grants(&mut sys.manifests)
}

/// The endpoint smoke.
pub fn smoke_ipc_endpoint(sys: &mut System) -> (r: bool)
    requires
        old(sys).wf(),
    ensures
        final(sys).wf(),
        r ==> final(sys).bridge.compat_internal == 0,
        r ==> (old(sys).bridge.compat_internal == 0 || !old(sys).bridge.retired),
        (old(sys).bridge.compat_internal == 0 || !old(sys).bridge.retired)
            && (old(sys).procs.smoke_pid is Some || old(sys).procs.procs@.len() < crate::process::MAX_PROCESSES)
            && !old(sys).eps.has_endpoint(EndpointId(old(sys).eps.next_endpoint)) ==> r,
        final(sys).audit == old(sys).audit,
{
    crate::ipc_endpoints::smoke_ipc_endpoint(&mut sys.eps, &mut sys.bridge, &mut sys.procs)
}

/// The audit correlation smoke.
pub fn smoke_audit_wire(sys: &mut System) -> (r: bool)
    requires
        old(sys).wf(),
    ensures
        final(sys).wf(),
        r == (old(sys).audit.next_correlation > 0 && crate::counter::bumped(old(sys).audit.wire_events) > 0),
        final(sys).audit.wire_events == crate::counter::bumped(old(sys).audit.wire_events),
        final(sys).audit.next_correlation == crate::counter::bumped(old(sys).audit.next_correlation),
{
    crate::audit_wire::phase135_audit_correlation_smoke(&mut sys.audit)
}

/// The wait-set smoke.
pub fn smoke_wait_set(sys: &mut System) -> (r: bool)
    requires
        old(sys).wf(),
    ensures
        final(sys).wf(),
        r ==> final(sys).eps.sends == crate::counter::bumped(old(sys).eps.sends),
        r == ((old(sys).procs.smoke_pid is Some || old(sys).procs.procs@.len() < crate::process::MAX_PROCESSES)
            && (!old(sys).eps.has_endpoint(EndpointId(old(sys).eps.next_endpoint))
            || old(sys).eps.queue(EndpointId(old(sys).eps.next_endpoint)).len() < MAX_ENDPOINT_QUEUE)),
{
    crate::audit_wire::phase136_wait_set_smoke(&mut sys.eps, &mut sys.procs)
}

/// The error-taxonomy smoke.
pub fn smoke_error_taxonomy(sys: &mut System) -> (r: bool)
    requires
        old(sys).wf(),
    ensures
        final(sys).wf(),
        r,
{
    crate::audit_wire::phase137_error_taxonomy_wire_smoke(&mut sys.audit)
}

/// The schema-registry smoke.
pub fn smoke_schema(sys: &mut System) -> (r: bool)
    requires
        old(sys).wf(),
    ensures
        final(sys).wf(),
        r == (old(sys).audit.next_correlation > 0 && crate::counter::bumped(old(sys).audit.wire_events) > 0),
{
    crate::audit_wire::phase138_schema_registry_smoke(&mut sys.audit)
}

/// The compat socket smoke.
pub fn smoke_compat_socket(sys: &mut System) -> (r: bool)
    requires
        old(sys).wf(),
    ensures
        final(sys).wf(),
        r == (old(sys).sockets.tcp_connects != u64::MAX && old(sys).sockets.udp_sends != u64::MAX
            && old(sys).sockets.select_calls != u64::MAX),
{
    crate::compat_socket::phase402_compat_socket_smoke(&mut sys.sockets)
}

/// The compositor smoke (`display_ready`: whether the display comes up).
pub fn smoke_compositor(sys: &mut System, display_ready: bool) -> (r: bool)
    requires
        old(sys).wf(),
    ensures
        final(sys).wf(),
        r ==> final(sys).fb.mode_active,
        final(sys).compositor.frame_submits == bumped(bumped(old(sys).compositor.frame_submits)),
        final(sys).compositor.pixel_frames == (if display_ready {
            bumped(bumped(old(sys).compositor.pixel_frames))
        } else {
            old(sys).compositor.pixel_frames
        }),
        r == (old(sys).fb.mode_active && final(sys).compositor.frame_submits >= 2
            && final(sys).compositor.pixel_frames >= 1),
{
    crate::compositor::smoke_compositor(&mut sys.compositor, &mut sys.fb, &mut sys.shell, &sys.mouse, display_ready)
}

/// The OOM policy smoke.
pub fn smoke_oom_policy(sys: &mut System) -> (r: bool)
    requires
        old(sys).wf(),
    ensures
        final(sys).wf(),
        r ==> final(sys).oom.suspends > 0 && final(sys).oom.terminates > 0,
        r == ((old(sys).procs.smoke_pid is Some || old(sys).procs.procs@.len() < crate::process::MAX_PROCESSES)
            && crate::oom_policy::half_space_refused(&old(sys).loader) && old(sys).oom.suspends != u64::MAX
            && old(sys).oom.terminates != u64::MAX && old(sys).oom.budget_enforced != u64::MAX
            && old(sys).oom.shed_acks != u64::MAX),
{
    crate::oom_policy::phase147_oom_smoke(&mut sys.oom, &sys.loader, &mut sys.procs)
}

/// (bootstrap mints seen, E-00 rejects seen, budget rejects seen, quota
/// rejects seen).
pub fn service_loader_status(sys: &System) -> (r: (bool, bool, bool, bool))
    ensures
        r == (sys.loader.bootstrap_mints > 0, sys.loader.e00_rejects > 0, sys.loader.budget_rejects > 0,
            sys.loader.quota_rejects > 0),
{
    let (quota_rej, e00_rej, budget_rej, bootstrap_mints) = stub_status(&sys.loader);
    (bootstrap_mints > 0, e00_rej > 0, budget_rej > 0, quota_rej > 0)
}

/// Send then drain one chunk `[next, end)` of the burst on `ep`, checking
/// each message comes back from `pid` carrying its index.
fn burst_chunk(eps: &mut IpcEndpoints, ep: EndpointId, pid: ProcessId, next: u8, end: u8) -> (r: bool)
    requires
        next <= end,
    ensures
        final(eps).others_same(old(eps), ep),
        final(eps).next_endpoint == old(eps).next_endpoint,
        old(eps).has_endpoint(ep) ==> final(eps).has_endpoint(ep),
        old(eps).has_endpoint(ep) && old(eps).queue(ep).len() == 0 && end - next <= MAX_ENDPOINT_QUEUE
            ==> r && final(eps).queue(ep).len() == 0,
        !old(eps).has_endpoint(ep) && next < end ==> !r && final(eps).queues@ == old(eps).queues@,
{
    let ghost good = old(eps).has_endpoint(ep) && old(eps).queue(ep).len() == 0 && end - next
        <= MAX_ENDPOINT_QUEUE;
    let mut ok = true;
    let mut i: u8 = next;
    while i < end
        invariant
            next <= i <= end,
            eps.others_same(old(eps), ep),
            eps.next_endpoint == old(eps).next_endpoint,
            old(eps).has_endpoint(ep) ==> eps.has_endpoint(ep),
            good == (old(eps).has_endpoint(ep) && old(eps).queue(ep).len() == 0 && end - next
                <= MAX_ENDPOINT_QUEUE),
            !old(eps).has_endpoint(ep) ==> eps.queues@ == old(eps).queues@ && (i > next ==> !ok),
            good ==> ok && eps.queue(ep).len() == i - next && forall|k: int|
                0 <= k < i - next ==> #[trigger] eps.queue(ep)[k] == (pid.0, seq![(next + k) as u8]),
        decreases end - i,
    {
        let msg: [u8; 1] = [i];
        assert(msg@ == seq![i]);
        ok = send(eps, ep, pid, &msg).is_ok() && ok;
        i += 1;
    }
    let mut expected: u8 = next;
    while expected < end
        invariant
            next <= expected <= end,
            eps.others_same(old(eps), ep),
            eps.next_endpoint == old(eps).next_endpoint,
            old(eps).has_endpoint(ep) ==> eps.has_endpoint(ep),
            good == (old(eps).has_endpoint(ep) && old(eps).queue(ep).len() == 0 && end - next
                <= MAX_ENDPOINT_QUEUE),
            !old(eps).has_endpoint(ep) ==> eps.queues@ == old(eps).queues@ && (next < end ==> !ok),
            good ==> ok && eps.queue(ep).len() == end - expected && forall|k: int|
                0 <= k < end - expected ==> #[trigger] eps.queue(ep)[k] == (pid.0, seq![(expected + k) as u8]),
        decreases end - expected,
    {
        let ghost q0 = eps.queue(ep);
        proof {
            if good {
                assert(q0[0] == (pid.0, seq![(expected + 0) as u8]));
            }
        }
        let got = match recv(eps, ep) {
            Ok(m) => {
                proof {
                    if good {
                        assert(m.payload@ == seq![expected]);
                    }
                }
                m.sender.0 == pid.0 && m.payload.len() == 1 && m.payload[0] == expected
            },
            Err(_) => false,
        };
        proof {
            if good {
                assert forall|k: int| 0 <= k < end - (expected + 1) implies #[trigger] eps.queue(ep)[k]
                    == (pid.0, seq![((expected + 1) + k) as u8]) by {
                    assert(q0[k + 1] == (pid.0, seq![(expected + (k + 1)) as u8]));
                }
            }
        }
        ok = got && ok;
        expected += 1;
    }
    ok
}

/// IPC integration: a 64-message burst through one endpoint in chunks of
/// the queue bound, each chunk drained in order; then a full queue refuses
/// one more message with `QueueFull`; then the endpoint is drained. Passes
/// with the build-integrity result (`build_integrity_ok`), the endpoint,
/// audit and schema smokes, and the interim bridge's counter at zero.
pub fn smoke_ipc_integration(sys: &mut System, build_integrity_ok: bool) -> (r: bool)
    requires
        old(sys).wf(),
    ensures
        final(sys).wf(),
        r ==> build_integrity_ok && old(sys).bridge.compat_internal == 0 && integration_audit_ok(old(sys)),
        build_integrity_ok && old(sys).bridge.compat_internal == 0 && integration_audit_ok(old(sys))
            && (old(sys).procs.smoke_pid is Some || old(sys).procs.procs@.len() + 2 <= crate::process::MAX_PROCESSES)
            && !old(sys).eps.has_endpoint(EndpointId(old(sys).eps.next_endpoint))
            && !old(sys).eps.has_endpoint(EndpointId(bumped(old(sys).eps.next_endpoint))) ==> r,
{
    let ghost fresh = !old(sys).eps.has_endpoint(EndpointId(old(sys).eps.next_endpoint))
        && !old(sys).eps.has_endpoint(EndpointId(bumped(old(sys).eps.next_endpoint)));
    let ghost second = bumped(old(sys).eps.next_endpoint);
    let pid = match ensure_smoke_process(&mut sys.procs) {
        Some(p) => p,
        None => return false,
    };
    let ep = create_endpoint(&mut sys.eps);
    let ghost procs1 = sys.procs;
    let ghost bridge0 = sys.bridge;
    let ghost audit0 = sys.audit;
    proof {
        assert(fresh ==> !sys.eps.queues@.contains_key(second));
    }
    let mut ok = true;
    let chunk: u8 = MAX_ENDPOINT_QUEUE as u8;
    let mut next: u8 = 0;
    while next < 64
        invariant
            next <= 64,
            chunk == 8,
            sys.wf(),
            sys.procs == procs1,
            sys.bridge == bridge0,
            sys.audit == audit0,
            sys.eps.next_endpoint == second,
            ep.0 != second,
            sys.eps.has_endpoint(ep),
            fresh ==> !sys.eps.queues@.contains_key(second),
            fresh ==> ok && sys.eps.queue(ep).len() == 0,
        decreases 64 - next,
    {
        let sum = next.saturating_add(chunk);
        let end: u8 = if sum < 64 {
            sum
        } else {
            64
        };
        ok = burst_chunk(&mut sys.eps, ep, pid, next, end) && ok;
        next = end;
    }
    let mut i: u8 = 0;
    while i < chunk
        invariant
            i <= chunk,
            chunk == 8,
            sys.wf(),
            sys.procs == procs1,
            sys.bridge == bridge0,
            sys.audit == audit0,
            sys.eps.next_endpoint == second,
            ep.0 != second,
            sys.eps.has_endpoint(ep),
            fresh ==> !sys.eps.queues@.contains_key(second),
            fresh ==> ok && sys.eps.queue(ep).len() == i,
        decreases chunk - i,
    {
        let msg: [u8; 1] = [i];
        let _ = send(&mut sys.eps, ep, pid, &msg);
        i += 1;
    }
    let overflow: [u8; 1] = [0xFF];
    let full = match send(&mut sys.eps, ep, pid, &overflow) {
        Err(EndpointError::QueueFull) => true,
        _ => false,
    };
    ok = full && ok;
    loop
        invariant
            sys.wf(),
            sys.procs == procs1,
            sys.bridge == bridge0,
            sys.audit == audit0,
            sys.eps.next_endpoint == second,
            ep.0 != second,
            fresh ==> !sys.eps.queues@.contains_key(second),
            fresh ==> ok,
        decreases (if sys.eps.has_endpoint(ep) { sys.eps.queue(ep).len() } else { 0 }),
    {
        match recv(&mut sys.eps, ep) {
            Ok(_) => {},
            Err(_) => break,
        }
    }
    let bridge_zero = crate::ipc_interim_bridge::ipc_bridge_compat_internal_count(&sys.bridge) == 0;
    build_integrity_ok && smoke_ipc_endpoint(sys) && smoke_audit_wire(sys) && smoke_schema(sys) && ok && bridge_zero
}

/// The audit and schema smokes that close the IPC integration both pass on
/// the audit state `sys` starts from.
pub open spec fn integration_audit_ok(sys: &System) -> bool {
    &&& sys.audit.next_correlation > 0
    &&& bumped(sys.audit.wire_events) > 0
    &&& bumped(sys.audit.next_correlation) > 0
    &&& bumped(bumped(sys.audit.wire_events)) > 0
}

} // verus!
