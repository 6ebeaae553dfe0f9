//! The POSIX compatibility server (`posix.compat.v1`): compat clients send
//! an opcode byte and a payload to the server's endpoint, and the request
//! is dispatched synchronously.
use vstd::prelude::*;

use crate::audit_wire::{le32, le64};
use crate::bytes::{bytes_eq, is_valid_utf8};
use crate::counter::{bump, bumped};
use crate::fd_table::{open_bytes_for_process, FdState};
use crate::ipc_endpoints::{create_endpoint, recv, send, EndpointId, IpcEndpoints};
use crate::kernel_object::{get_cap, mint_cap_for_process, register_object, KernelObjects, ObjectKind, Rights};
use crate::process::{ProcessId, ProcessMode, ProcessTable};
use crate::security::{Credentials, SecurityState};
use crate::storage::FileStore;

verus! {

pub const POSIX_COMPAT_SCHEMA: &'static str = "posix.compat.v1";

pub const OP_GETPID: u8 = 0x01;
pub const OP_OPEN: u8 = 0x02;
pub const OP_RESP_OK: u8 = 0x80;
pub const OP_RESP_ERR: u8 = 0xFF;

#[derive(Debug, Clone, Copy, PartialEq, Eq, Structural)]
pub struct ServerRecord {
    pub service_pid: ProcessId,
    pub endpoint: EndpointId,
    pub service_cap: u32,
}

pub struct PosixServerState {
    pub server: Option<ServerRecord>,
    pub requests: u64,
}

impl PosixServerState {
    pub fn new() -> (r: Self)
        ensures
            r.server is None,
            r.requests == 0,
    {
        PosixServerState { server: None, requests: 0 }
    }
}

pub fn posix_server_request_count(ps: &PosixServerState) -> (r: u64)
    ensures
        r == ps.requests,
{
    ps.requests
}

pub fn server_endpoint(ps: &PosixServerState) -> (r: Option<EndpointId>)
    ensures
        ps.server is None ==> r is None,
        ps.server matches Some(s) ==> r == Some(s.endpoint),
{
    match ps.server {
        Some(s) => Some(s.endpoint),
        None => None,
    }
}

pub fn service_pid(ps: &PosixServerState) -> (r: Option<ProcessId>)
    ensures
        ps.server is None ==> r is None,
        ps.server matches Some(s) ==> r == Some(s.service_pid),
{
    match ps.server {
        Some(s) => Some(s.service_pid),
        None => None,
    }
}

/// Start the server once: a new process, given a read-write cap on a fresh
/// service object while still compat, then switched to native, and a fresh
/// endpoint. Later calls return the same endpoint.
pub fn ensure_posix_server(
    ps: &mut PosixServerState,
    objs: &mut KernelObjects,
    procs: &mut ProcessTable,
    eps: &mut IpcEndpoints,
) -> (r: Result<EndpointId, ()>)
    requires
        old(procs).wf(),
    ensures
        final(procs).wf(),
        old(ps).server matches Some(s) ==> r == Ok::<EndpointId, ()>(s.endpoint) && *final(ps) == *old(ps)
            && final(procs).procs@ == old(procs).procs@,
        old(ps).server is None && old(procs).procs@.len() >= crate::process::MAX_PROCESSES ==> r is Err,
        r is Ok ==> (final(ps).server matches Some(s) && r->Ok_0 == s.endpoint),
        old(ps).server is None && r is Ok ==> final(procs).mode_of(final(ps).server->Some_0.service_pid) == ProcessMode::Native,
        r is Err ==> final(ps).server is None,
        final(ps).requests == old(ps).requests,
        final(procs).smoke_pid == old(procs).smoke_pid,
        final(procs).current_pid == old(procs).current_pid,
        old(ps).server is Some ==> *final(eps) == *old(eps),
        old(ps).server is None && old(procs).procs@.len() < crate::process::MAX_PROCESSES ==> {
            let s = final(ps).server->Some_0;
            &&& r is Ok
            &&& s.service_pid == ProcessId((old(procs).procs@.len() + 1) as u64)
            &&& s.endpoint == EndpointId(old(eps).next_endpoint)
            &&& final(procs).procs@.len() == old(procs).procs@.len() + 1
            &&& forall|i: int| 0 <= i < old(procs).procs@.len() ==> #[trigger] final(procs).procs@[i] == old(procs).procs@[i]
            &&& final(procs).mode_of(s.service_pid) == ProcessMode::Native
            &&& crate::kernel_object::spec_get_cap(final(procs), s.service_pid, s.service_cap) is Some
            &&& final(eps).has_endpoint(s.endpoint)
            &&& !old(eps).has_endpoint(s.endpoint) ==> final(eps).queue(s.endpoint).len() == 0
            &&& old(eps).has_endpoint(s.endpoint) ==> final(eps).queue(s.endpoint) == old(eps).queue(s.endpoint)
            &&& final(eps).others_same(old(eps), s.endpoint)
            &&& final(eps).next_endpoint == crate::counter::bumped(old(eps).next_endpoint)
        },
{
    if let Some(s) = ps.server {
        return Ok(s.endpoint);
    }
    let ghost before = *procs;
    let pid = match procs.create_process(Credentials::kernel()) {
        Some(p) => p,
        None => return Err(()),
    };
    procs.set_process_mode(pid, ProcessMode::Compat);
    let oid = register_object(objs, ObjectKind::Service, Rights::read_write());
    proof {
        assert(procs.caps_of(pid)[0] is None);
        assert(objs.has_object(oid));
        assert((3u32 & 3u32) == 3u32) by (bit_vector);
    }
    let cap = match mint_cap_for_process(objs, procs, pid, oid, Rights::read_write()) {
        Ok(c) => c,
        Err(_) => return Err(()),
    };
    procs.set_process_mode(pid, ProcessMode::Native);
    proof {
        assert forall|i: int| 0 <= i < before.procs@.len() implies #[trigger] procs.procs@[i] == before.procs@[i] by {
            assert(i != pid.0 - 1);
        }
    }
    let endpoint = create_endpoint(eps);
    ps.server = Some(ServerRecord { service_pid: pid, endpoint, service_cap: cap });
    Ok(endpoint)
}

/// The response to a request from `client`; `opened` is the result of
/// opening the request's path for the client.
pub open spec fn response(client: ProcessId, request: Seq<u8>, opened: Option<Result<u32, ()>>) -> Seq<u8> {
    if request.len() == 0 {
        seq![OP_RESP_ERR]
    } else if request[0] == OP_GETPID {
        seq![OP_RESP_OK] + le64(client.0)
    } else if request[0] == OP_OPEN {
        match opened {
            Some(Ok(fd)) => seq![OP_RESP_OK] + le32(fd),
            _ => seq![OP_RESP_ERR],
        }
    } else {
        seq![OP_RESP_ERR]
    }
}

/// The path of an open request: the payload when it is UTF-8, else empty.
pub open spec fn open_path(request: Seq<u8>) -> Seq<u8> {
    if vstd::utf8::valid_utf8(request.skip(1)) {
        request.skip(1)
    } else {
        Seq::empty()
    }
}

fn push_le64(out: &mut Vec<u8>, v: u64)
    ensures
        final(out)@ == old(out)@ + le64(v),
{
    out.push(v as u8);
    out.push((v >> 8u64) as u8);
    out.push((v >> 16u64) as u8);
    out.push((v >> 24u64) as u8);
    out.push((v >> 32u64) as u8);
    out.push((v >> 40u64) as u8);
    out.push((v >> 48u64) as u8);
    out.push((v >> 56u64) as u8);
    assert(out@ =~= old(out)@ + le64(v));
}

fn push_le32(out: &mut Vec<u8>, v: u32)
    ensures
        final(out)@ == old(out)@ + le32(v),
{
    out.push(v as u8);
    out.push((v >> 8u32) as u8);
    out.push((v >> 16u32) as u8);
    out.push((v >> 24u32) as u8);
    assert(out@ =~= old(out)@ + le32(v));
}

/// Whether an open request asks for a (non-empty, UTF-8) path.
pub open spec fn is_open_request(request: Seq<u8>) -> bool {
    request.len() > 0 && request[0] == OP_OPEN && open_path(request).len() > 0
}

/// `resp` answers `request` from `client`, and the process table went from
/// `before` to `after`: an open request opened its path for the client when
/// `open_allowed` says it may (storing the descriptor in the first free
/// slot) and left the table as it was otherwise; any other request leaves
/// the table as it was.
pub open spec fn dispatched(
    before: &ProcessTable,
    after: &ProcessTable,
    store: &FileStore,
    sec: &SecurityState,
    client: ProcessId,
    request: Seq<u8>,
    resp: Seq<u8>,
) -> bool {
    if is_open_request(request) {
        exists|opened: Result<u32, ()>|
            resp == #[trigger] response(client, request, Some(opened))
            && (opened is Ok ==> crate::fd_table::resolved_path(before, client, open_path(request)) is Some
                && crate::fd_table::fd_stored_at(before, after, client, opened->Ok_0 as int,
                crate::fd_table::resolved_path(before, client, open_path(request))->Some_0))
            && (opened is Ok <==> crate::fd_table::open_allowed(before, store, sec, client, open_path(request)))
            && (opened is Err ==> after.procs@ == before.procs@)
    } else {
        resp == response(client, request, None) && after.procs@ == before.procs@
    }
}

/// Dispatch a request: `GETPID` answers the client's id (8 bytes LE),
/// `OPEN` opens the UTF-8 path that follows for the client and answers the
/// descriptor (4 bytes LE); an empty or non-UTF-8 path, a failed open and
/// any other opcode answer the error byte.
pub fn dispatch_request(
    fds: &mut FdState,
    procs: &mut ProcessTable,
    store: &FileStore,
    sec: &SecurityState,
    client: ProcessId,
    request: &[u8],
) -> (r: Vec<u8>)
    requires
        old(procs).wf(),
    ensures
        final(procs).wf(),
        final(procs).smoke_pid == old(procs).smoke_pid,
        final(procs).current_pid == old(procs).current_pid,
        dispatched(old(procs), final(procs), store, sec, client, request@, r@),
{
    if request.len() == 0 {
        let mut resp: Vec<u8> = Vec::new();
        resp.push(OP_RESP_ERR);
        assert(resp@ =~= seq![OP_RESP_ERR]);
        return resp;
    }
    let op = request[0];
    if op == OP_GETPID {
        let mut resp: Vec<u8> = Vec::new();
        resp.push(OP_RESP_OK);
        push_le64(&mut resp, client.0);
        assert(resp@ =~= seq![OP_RESP_OK] + le64(client.0));
        return resp;
    }
    if op == OP_OPEN {
        let mut payload: Vec<u8> = Vec::new();
        let mut i: usize = 1;
        while i < request.len()
            invariant
                1 <= i <= request@.len(),
                payload@ == request@.subrange(1, i as int),
            decreases request@.len() - i,
        {
            payload.push(request[i]);
            i += 1;
        }
        assert(payload@ =~= request@.skip(1));
        let valid = is_valid_utf8(payload.as_slice());
        if !valid || payload.len() == 0 {
            let mut resp: Vec<u8> = Vec::new();
            resp.push(OP_RESP_ERR);
            assert(resp@ =~= seq![OP_RESP_ERR]);
            return resp;
        }
        let opened = open_bytes_for_process(fds, procs, store, sec, client, payload.as_slice());
        let mut resp: Vec<u8> = Vec::new();
        match opened {
            Ok(fd) => {
                resp.push(OP_RESP_OK);
                push_le32(&mut resp, fd);
                assert(resp@ =~= seq![OP_RESP_OK] + le32(fd));
            },
            Err(_) => {
                resp.push(OP_RESP_ERR);
                assert(resp@ =~= seq![OP_RESP_ERR]);
            },
        }
        assert(resp@ == response(client, request@, Some(opened)));
        return resp;
    }
    let mut resp: Vec<u8> = Vec::new();
    resp.push(OP_RESP_ERR);
    assert(resp@ =~= seq![OP_RESP_ERR]);
    resp
}

/// `started` is `before` with the server process added after its last
/// entry as a native process.
pub open spec fn server_started(before: &ProcessTable, started: &ProcessTable, service: ProcessId) -> bool {
    &&& started.procs@.len() == before.procs@.len() + 1
    &&& service == ProcessId((before.procs@.len() + 1) as u64)
    &&& forall|i: int| 0 <= i < before.procs@.len() ==> #[trigger] started.procs@[i] == before.procs@[i]
    &&& started.mode_of(service) == ProcessMode::Native
}

/// The request was dispatched as `dispatched` says, from the table that
/// starting the server left.
pub open spec fn dispatched_after_start(
    before: &ProcessTable,
    after: &ProcessTable,
    service: ProcessId,
    store: &FileStore,
    sec: &SecurityState,
    client: ProcessId,
    request: Seq<u8>,
    resp: Seq<u8>,
) -> bool {
    exists|started: ProcessTable|
        server_started(before, &started, service) && #[trigger] dispatched(&started, after, store, sec, client,
            request, resp)
}

/// A compat client's round trip: the request goes to the server endpoint,
/// the server takes it back off the queue (it must be the client's own
/// request), counts it and dispatches it. Non-compat clients are refused.
pub fn invoke_compat(
    ps: &mut PosixServerState,
    objs: &mut KernelObjects,
    procs: &mut ProcessTable,
    eps: &mut IpcEndpoints,
    fds: &mut FdState,
    store: &FileStore,
    sec: &SecurityState,
    client: ProcessId,
    request: &[u8],
) -> (r: Result<Vec<u8>, ()>)
    requires
        old(procs).wf(),
    ensures
        final(procs).wf(),
        old(procs).mode_of(client) != ProcessMode::Compat ==> r is Err && *final(ps) == *old(ps)
            && final(procs).procs@ == old(procs).procs@ && *final(eps) == *old(eps),
        r is Ok ==> final(ps).requests == bumped(old(ps).requests) && old(procs).mode_of(client) == ProcessMode::Compat,
        r is Err ==> final(ps).requests == old(ps).requests,
        final(procs).smoke_pid == old(procs).smoke_pid && final(procs).current_pid == old(procs).current_pid,
        old(procs).mode_of(client) == ProcessMode::Compat && old(ps).server is Some
            && old(eps).has_endpoint(old(ps).server->Some_0.endpoint)
            && old(eps).queue(old(ps).server->Some_0.endpoint).len() == 0
            && request@.len() <= crate::ipc_endpoints::MAX_ENDPOINT_MSG_BYTES ==> {
            &&& r is Ok
            &&& final(ps).server == old(ps).server
            &&& final(eps).has_endpoint(old(ps).server->Some_0.endpoint)
            &&& final(eps).queue(old(ps).server->Some_0.endpoint).len() == 0
            &&& dispatched(old(procs), final(procs), store, sec, client, request@, r->Ok_0@)
        },
        old(procs).mode_of(client) == ProcessMode::Compat && old(ps).server is None
            && old(procs).procs@.len() < crate::process::MAX_PROCESSES
            && (old(eps).has_endpoint(EndpointId(old(eps).next_endpoint))
                ==> old(eps).queue(EndpointId(old(eps).next_endpoint)).len() == 0)
            && request@.len() <= crate::ipc_endpoints::MAX_ENDPOINT_MSG_BYTES ==> r is Ok,
        old(procs).mode_of(client) == ProcessMode::Compat && old(ps).server is None
            && old(procs).procs@.len() < crate::process::MAX_PROCESSES
            && (old(eps).has_endpoint(EndpointId(old(eps).next_endpoint))
                ==> old(eps).queue(EndpointId(old(eps).next_endpoint)).len() == 0)
            && request@.len() <= crate::ipc_endpoints::MAX_ENDPOINT_MSG_BYTES ==> {
            &&& final(ps).server matches Some(s) && s.endpoint == EndpointId(old(eps).next_endpoint)
            &&& final(eps).queue(EndpointId(old(eps).next_endpoint)).len() == 0
        },
        old(procs).mode_of(client) == ProcessMode::Compat && old(ps).server is None
            && old(procs).procs@.len() < crate::process::MAX_PROCESSES
            && (old(eps).has_endpoint(EndpointId(old(eps).next_endpoint))
                ==> old(eps).queue(EndpointId(old(eps).next_endpoint)).len() == 0)
            && request@.len() <= crate::ipc_endpoints::MAX_ENDPOINT_MSG_BYTES ==> {
            &&& dispatched_after_start(old(procs), final(procs), final(ps).server->Some_0.service_pid, store, sec,
                client, request@, r->Ok_0@)
        },
{
    if procs.process_mode(client) != ProcessMode::Compat {
        return Err(());
    }
    let endpoint = ensure_posix_server(ps, objs, procs, eps)?;
    let ghost eps0 = *eps;
    let ghost started = *procs;
    if send(eps, endpoint, client, request).is_err() {
        return Err(());
    }
    let msg = match recv(eps, endpoint) {
        Ok(m) => m,
        Err(_) => return Err(()),
    };
    proof {
        if eps0.has_endpoint(endpoint) && eps0.queue(endpoint).len() == 0 {
            assert(msg.payload@ == request@);
        }
    }
    if msg.sender.0 != client.0 || !bytes_eq(msg.payload.as_slice(), request) {
        return Err(());
    }
    ps.requests = bump(ps.requests);
    let resp = dispatch_request(fds, procs, store, sec, client, msg.payload.as_slice());
    proof {
        if old(ps).server is None && old(procs).procs@.len() < crate::process::MAX_PROCESSES
            && (old(eps).has_endpoint(EndpointId(old(eps).next_endpoint))
                ==> old(eps).queue(EndpointId(old(eps).next_endpoint)).len() == 0) {
            assert(dispatched(&started, procs, store, sec, client, request@, resp@));
            assert(server_started(old(procs), &started, ps.server->Some_0.service_pid));
            assert(dispatched_after_start(old(procs), procs, ps.server->Some_0.service_pid, store, sec, client,
                request@, resp@));
        }
    }
    Ok(resp)
}

/// The value of the eight little-endian bytes of `b` at `off`.
pub open spec fn le64_value(b: Seq<u8>, off: int) -> u64 {
    (b[off] as u64) | ((b[off + 1] as u64) << 8u64) | ((b[off + 2] as u64) << 16u64) | ((b[off + 3] as u64)
        << 24u64) | ((b[off + 4] as u64) << 32u64) | ((b[off + 5] as u64) << 40u64) | ((b[off + 6] as u64)
        << 48u64) | ((b[off + 7] as u64) << 56u64)
}

fn read_le64(b: &[u8], off: usize) -> (r: u64)
    requires
        off + 8 <= b@.len(),
    ensures
        r == le64_value(b@, off as int),
{
    (b[off] as u64) | ((b[off + 1] as u64) << 8u64) | ((b[off + 2] as u64) << 16u64) | ((b[off + 3] as u64)
        << 24u64) | ((b[off + 4] as u64) << 32u64) | ((b[off + 5] as u64) << 40u64) | ((b[off + 6] as u64)
        << 48u64) | ((b[off + 7] as u64) << 56u64)
}

/// Reading back the little-endian bytes of `v` gives `v`.
pub proof fn lemma_le64_round_trip(v: u64, prefix: Seq<u8>)
    ensures
        le64_value(prefix + le64(v), prefix.len() as int) == v,
{
    let b = prefix + le64(v);
    let o = prefix.len() as int;
    assert(b[o] == v as u8 && b[o + 1] == (v >> 8u64) as u8 && b[o + 2] == (v >> 16u64) as u8
        && b[o + 3] == (v >> 24u64) as u8 && b[o + 4] == (v >> 32u64) as u8 && b[o + 5] == (v >> 40u64) as u8
        && b[o + 6] == (v >> 48u64) as u8 && b[o + 7] == (v >> 56u64) as u8);
    assert(((v as u8) as u64) | ((((v >> 8u64) as u8) as u64) << 8u64) | ((((v >> 16u64) as u8) as u64) << 16u64)
        | ((((v >> 24u64) as u8) as u64) << 24u64) | ((((v >> 32u64) as u8) as u64) << 32u64) | ((((v >> 40u64)
        as u8) as u64) << 40u64) | ((((v >> 48u64) as u8) as u64) << 48u64) | ((((v >> 56u64) as u8) as u64)
        << 56u64) == v) by (bit_vector);
}

/// The open request of the smoke: `/bin/demo-hello` is UTF-8.
proof fn lemma_demo_open_request(req: Seq<u8>)
    requires
        req == seq![OP_OPEN, 47u8, 98u8, 105u8, 110u8, 47u8, 100u8, 101u8, 109u8, 111u8, 45u8, 104u8, 101u8, 108u8, 108u8, 111u8],
    ensures
        is_open_request(req),
        open_path(req).len() > 0,
        open_path(req)[0] == 47u8,
{
    let tail = seq![47u8, 98u8, 105u8, 110u8, 47u8, 100u8, 101u8, 109u8, 111u8, 45u8, 104u8, 101u8, 108u8, 108u8, 111u8];
    assert(req.skip(1) =~= tail);
    lemma_ascii_valid_utf8(tail);
}

/// Bytes below 0x80 are valid UTF-8.
proof fn lemma_ascii_valid_utf8(b: Seq<u8>)
    requires
        forall|i: int| 0 <= i < b.len() ==> b[i] < 0x80,
    ensures
        vstd::utf8::valid_utf8(b),
    decreases b.len(),
{
    if b.len() > 0 {
        let rest = b.subrange(1, b.len() as int);
        let b0 = b[0];
        assert(b0 < 0x80);
        assert((b0 as u32) & 0x7f == b0 as u32) by (bit_vector)
            requires b0 < 0x80u8;
        lemma_ascii_valid_utf8(rest);
        assert(vstd::utf8::pop_first_scalar(b) =~= rest);
    }
}

/// POSIX server smoke: an admin compat client gets its pid back and opens
/// `/bin/demo-hello` through the server; the native server process itself
/// is refused as a client; both requests are counted and the server's
/// service cap is in place.
pub fn smoke_posix_server(
    ps: &mut PosixServerState,
    objs: &mut KernelObjects,
    procs: &mut ProcessTable,
    eps: &mut IpcEndpoints,
    fds: &mut FdState,
    store: &FileStore,
    sec: &SecurityState,
) -> (r: bool)
    requires
        old(procs).wf(),
    ensures
        final(procs).wf(),
        r ==> final(ps).server is Some && final(ps).requests >= 2,
        old(ps).server is None && old(procs).procs@.len() + 2 <= crate::process::MAX_PROCESSES
            && !old(eps).has_endpoint(EndpointId(old(eps).next_endpoint)) && old(ps).requests < u64::MAX - 1
            ==> r,
{
    let ghost good = old(ps).server is None && old(procs).procs@.len() + 2 <= crate::process::MAX_PROCESSES
        && !old(eps).has_endpoint(EndpointId(old(eps).next_endpoint)) && old(ps).requests < u64::MAX - 1;
    let client = match procs.create_process(Credentials::admin()) {
        Some(p) => p,
        None => return false,
    };
    procs.set_process_mode(client, ProcessMode::Compat);
    let ghost procs1 = *procs;
    let endpoint_ok = ensure_posix_server(ps, objs, procs, eps).is_ok();
    proof {
        if good {
            assert(procs.procs@[client.0 - 1] == procs1.procs@[client.0 - 1]);
            assert(procs.fds_of(client)[0] is None);
        }
    }
    let native_server = match service_pid(ps) {
        Some(pid) => procs.process_mode(pid) == ProcessMode::Native,
        None => false,
    };
    let ghost procs2 = *procs;
    let getpid_req: [u8; 1] = [OP_GETPID];
    let getpid_ok = match invoke_compat(ps, objs, procs, eps, fds, store, sec, client, &getpid_req) {
        Ok(resp) => {
            proof {
                if good {
                    assert(!is_open_request(getpid_req@));
                    assert(resp@ == seq![OP_RESP_OK] + le64(client.0));
                    lemma_le64_round_trip(client.0, seq![OP_RESP_OK]);
                }
            }
            resp.len() >= 9 && resp[0] == OP_RESP_OK && read_le64(resp.as_slice(), 1) == client.0
        },
        Err(_) => false,
    };
    let ghost procs3 = *procs;
    let open_req: [u8; 16] = [OP_OPEN, 47, 98, 105, 110, 47, 100, 101, 109, 111, 45, 104, 101, 108, 108, 111];
    proof {
        lemma_demo_open_request(open_req@);
        if good {
            assert(procs.procs@ == procs2.procs@);
            assert(procs.fds_of(client)[0] is None);
            assert(crate::fd_table::open_allowed(procs, store, sec, client, open_path(open_req@)));
        }
    }
    let open_ok = match invoke_compat(ps, objs, procs, eps, fds, store, sec, client, &open_req) {
        Ok(resp) => resp.len() >= 5 && resp[0] == OP_RESP_OK,
        Err(_) => false,
    };
    let native_client_rejected = match service_pid(ps) {
        Some(pid) => invoke_compat(ps, objs, procs, eps, fds, store, sec, pid, &getpid_req).is_err(),
        None => false,
    };
    let handled = posix_server_request_count(ps) >= 2;
    let cap_minted = match ps.server {
        Some(s) => get_cap(procs, s.service_pid, s.service_cap).is_some(),
        None => false,
    };
    endpoint_ok && native_server && cap_minted && getpid_ok && open_ok && native_client_rejected && handled
        && server_endpoint(ps).is_some()
}

} // verus!
