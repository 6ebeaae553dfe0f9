//! Audit events on the wire: native errors carried with a correlation id,
//! the error code and the error class byte (`audit.ipc.v1`).
use vstd::prelude::*;

use crate::bytes::str_eq;
use crate::counter::{bump, bumped};
use crate::ipc_endpoints::{create_endpoint, send, IpcEndpoints};
use crate::kernel_object::ensure_smoke_process;
use crate::process::ProcessTable;
use crate::service_loader::{ErrorClass, NativeError, ERR_CAP_QUOTA};

verus! {

pub const AUDIT_SCHEMA: &'static str = "audit.ipc.v1";

#[derive(Debug, Clone, Copy)]
pub struct WireAuditEvent {
    pub correlation_id: u64,
    pub error_code: u32,
    pub error_class: u8,
    pub schema: &'static str,
}

/// Wire event counter and the next correlation id.
pub struct AuditWireState {
    pub wire_events: u64,
    pub next_correlation: u64,
}

impl AuditWireState {
    pub fn new() -> (r: Self)
        ensures
            r.wire_events == 0,
            r.next_correlation == 1,
    {
        AuditWireState { wire_events: 0, next_correlation: 1 }
    }
}

pub fn wire_event_count(st: &AuditWireState) -> (r: u64)
    ensures
        r == st.wire_events,
{
    st.wire_events
}

/// Hand out the next correlation id.
pub fn next_correlation_id(st: &mut AuditWireState) -> (r: u64)
    ensures
        r == old(st).next_correlation,
        final(st).next_correlation == bumped(old(st).next_correlation),
        final(st).wire_events == old(st).wire_events,
{
    let id = st.next_correlation;
    st.next_correlation = bump(st.next_correlation);
    id
}

/// The wire byte of an error class.
pub open spec fn class_byte(class: ErrorClass) -> u8 {
    match class {
        ErrorClass::Transient => 1,
        ErrorClass::StructuralRemediable => 2,
        ErrorClass::System => 3,
    }
}

/// Encode `err` as a wire event with a fresh correlation id.
pub fn encode_error_on_wire(st: &mut AuditWireState, err: &NativeError) -> (r: WireAuditEvent)
    ensures
        r.correlation_id == old(st).next_correlation,
        r.error_code == err.code,
        r.error_class == class_byte(err.class),
        r.schema@ == AUDIT_SCHEMA@,
        final(st).wire_events == bumped(old(st).wire_events),
        final(st).next_correlation == bumped(old(st).next_correlation),
{
    st.wire_events = bump(st.wire_events);
    let class_byte: u8 = match err.class {
        ErrorClass::Transient => 1,
        ErrorClass::StructuralRemediable => 2,
        ErrorClass::System => 3,
    };
    WireAuditEvent {
        correlation_id: next_correlation_id(st),
        error_code: err.code,
        error_class: class_byte,
        schema: AUDIT_SCHEMA,
    }
}

/// Little-endian bytes of a 64-bit value.
pub open spec fn le64(v: u64) -> Seq<u8> {
    seq![v as u8, (v >> 8u64) as u8, (v >> 16u64) as u8, (v >> 24u64) as u8, (v >> 32u64) as u8, (v >> 40u64) as u8, (v >> 48u64) as u8, (v >> 56u64) as u8]
}

/// Little-endian bytes of a 32-bit value.
pub open spec fn le32(v: u32) -> Seq<u8> {
    seq![v as u8, (v >> 8u32) as u8, (v >> 16u32) as u8, (v >> 24u32) as u8]
}

/// The wire form: correlation id (8 bytes LE), error code (4 bytes LE),
/// class byte.
pub fn serialize_event(ev: &WireAuditEvent) -> (r: Vec<u8>)
    ensures
        r@ == le64(ev.correlation_id) + le32(ev.error_code) + seq![ev.error_class],
{
    let mut out: Vec<u8> = Vec::new();
    let c = ev.correlation_id;
    out.push(c as u8);
    out.push((c >> 8u64) as u8);
    out.push((c >> 16u64) as u8);
    out.push((c >> 24u64) as u8);
    out.push((c >> 32u64) as u8);
    out.push((c >> 40u64) as u8);
    out.push((c >> 48u64) as u8);
    out.push((c >> 56u64) as u8);
    let e = ev.error_code;
    out.push(e as u8);
    out.push((e >> 8u32) as u8);
    out.push((e >> 16u32) as u8);
    out.push((e >> 24u32) as u8);
    out.push(ev.error_class);
    assert(out@ =~= le64(ev.correlation_id) + le32(ev.error_code) + seq![ev.error_class]);
    out
}

/// Correlation smoke: a saturation error goes out with the audit schema, a
/// nonzero correlation id and a 13-byte wire form.
pub fn phase135_audit_correlation_smoke(st: &mut AuditWireState) -> (r: bool)
    ensures
        r == (old(st).next_correlation > 0 && bumped(old(st).wire_events) > 0),
        final(st).wire_events == bumped(old(st).wire_events),
        final(st).next_correlation == bumped(old(st).next_correlation),
{
    let err = NativeError::e00_saturated();
    let ev = encode_error_on_wire(st, &err);
    let bytes = serialize_event(&ev);
    str_eq(ev.schema, AUDIT_SCHEMA) && ev.correlation_id > 0 && bytes.len() >= 13 && wire_event_count(st) > 0
}

/// Wait-set smoke: a message to a fresh endpoint is accepted.
pub fn phase136_wait_set_smoke(eps: &mut IpcEndpoints, procs: &mut ProcessTable) -> (r: bool)
    requires
        old(procs).wf(),
    ensures
        final(procs).wf(),
        r ==> final(eps).sends == bumped(old(eps).sends),
        r == ((old(procs).smoke_pid is Some || old(procs).procs@.len() < crate::process::MAX_PROCESSES)
            && (!old(eps).has_endpoint(crate::ipc_endpoints::EndpointId(old(eps).next_endpoint))
            || old(eps).queue(crate::ipc_endpoints::EndpointId(old(eps).next_endpoint)).len()
            < crate::ipc_endpoints::MAX_ENDPOINT_QUEUE)),
{
    let pid = match ensure_smoke_process(procs) {
        Some(p) => p,
        None => return false,
    };
    let ep = create_endpoint(eps);
    let msg: [u8; 4] = [119u8, 97u8, 105u8, 116u8];
    send(eps, ep, pid, &msg).is_ok()
}

/// Taxonomy smoke: a structural-remediable error travels as class 2.
pub fn phase137_error_taxonomy_wire_smoke(st: &mut AuditWireState) -> (r: bool)
    ensures
        r,
        final(st).wire_events == bumped(old(st).wire_events),
{
    let structural = NativeError { code: ERR_CAP_QUOTA, class: ErrorClass::StructuralRemediable };
    let ev = encode_error_on_wire(st, &structural);
    ev.error_class == 2
}

/// Schema registry smoke: the correlation and taxonomy smokes.
pub fn phase138_schema_registry_smoke(st: &mut AuditWireState) -> (r: bool)
    ensures
        r == (old(st).next_correlation > 0 && bumped(old(st).wire_events) > 0),
{
    phase135_audit_correlation_smoke(st) && phase137_error_taxonomy_wire_smoke(st)
}

} // verus!
