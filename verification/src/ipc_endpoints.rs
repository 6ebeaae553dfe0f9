//! Native IPC endpoints with per-endpoint FIFO queues.
use vstd::prelude::*;

use crate::bytes::copy_bytes;
use crate::counter::{bump, bumped};
use crate::ipc_interim_bridge::InterimBridge;
use crate::kernel_object::ensure_smoke_process;
use crate::process::{ProcessId, ProcessTable, MAX_PROCESSES};
use std::collections::BTreeMap;
use std::collections::VecDeque;

verus! {

broadcast use vstd::laws_cmp::group_laws_cmp;

pub const MAX_ENDPOINT_MSG_BYTES: usize = 256;
pub const MAX_ENDPOINT_QUEUE: usize = 8;

#[derive(Debug, Clone, Copy, PartialEq, Eq, Structural)]
pub struct EndpointId(pub u64);

impl EndpointId {
    pub fn from_raw(raw: u64) -> (r: Self)
        ensures
            r.0 == raw,
    {
        Self(raw)
    }

    pub fn as_u64(self) -> (r: u64)
        ensures
            r == self.0,
    {
        self.0
    }
}

#[derive(Debug)]
pub struct EndpointMessage {
    pub sender: ProcessId,
    pub payload: Vec<u8>,
}

#[derive(Debug, Clone, Copy, PartialEq, Eq, Structural)]
pub enum EndpointError {
    NotFound,
    QueueFull,
    Empty,
    TooLarge,
    BridgeActive,
}

/// A queued message as plain values: sender id and payload bytes.
pub type MessageView = (u64, Seq<u8>);

pub open spec fn message_view(m: EndpointMessage) -> MessageView {
    (m.sender.0, m.payload@)
}

/// The endpoint queues and the send/receive counters.
pub struct IpcEndpoints {
    pub next_endpoint: u64,
    pub sends: u64,
    pub recvs: u64,
    pub queues: BTreeMap<u64, VecDeque<EndpointMessage>>,
}

impl IpcEndpoints {
    pub fn new() -> (r: Self)
        ensures
            r.next_endpoint == 1,
            r.sends == 0,
            r.recvs == 0,
            r.queues@ == Map::<u64, VecDeque<EndpointMessage>>::empty(),
    {
        IpcEndpoints { next_endpoint: 1, sends: 0, recvs: 0, queues: BTreeMap::new() }
    }

    pub open spec fn has_endpoint(&self, ep: EndpointId) -> bool {
        self.queues@.contains_key(ep.0)
    }

    /// The messages waiting at `ep`, oldest first.
    pub open spec fn queue(&self, ep: EndpointId) -> Seq<MessageView> {
        self.queues@[ep.0]@.map_values(|m: EndpointMessage| message_view(m))
    }

    /// Every endpoint other than `ep` keeps its queue.
    pub open spec fn others_same(&self, other: &IpcEndpoints, ep: EndpointId) -> bool {
        &&& forall|k: u64| k != ep.0 ==> (#[trigger] self.queues@.contains_key(k)) == other.queues@.contains_key(k)
        &&& forall|k: u64| k != ep.0 && #[trigger] self.queues@.contains_key(k) ==> self.queues@[k]@ == other.queues@[k]@
    }
}

pub fn endpoint_send_count(s: &IpcEndpoints) -> (r: u64)
    ensures
        r == s.sends,
{
    s.sends
}

pub fn endpoint_recv_count(s: &IpcEndpoints) -> (r: u64)
    ensures
        r == s.recvs,
{
    s.recvs
}

/// Allocate the next endpoint id and make sure it has a queue (an existing
/// queue under that id is kept).
pub fn create_endpoint(s: &mut IpcEndpoints) -> (r: EndpointId)
    ensures
        r.0 == old(s).next_endpoint,
        final(s).next_endpoint == bumped(old(s).next_endpoint),
        final(s).has_endpoint(r),
        old(s).has_endpoint(r) ==> final(s).queue(r) == old(s).queue(r),
        !old(s).has_endpoint(r) ==> final(s).queue(r) == Seq::<MessageView>::empty(),
        final(s).others_same(old(s), r),
        final(s).sends == old(s).sends,
        final(s).recvs == old(s).recvs,
{
    let id = EndpointId(s.next_endpoint);
    s.next_endpoint = bump(s.next_endpoint);
    if !s.queues.contains_key(&id.0) {
        s.queues.insert(id.0, VecDeque::new());
        assert(s.queues@[id.0]@.map_values(|m: EndpointMessage| message_view(m)) =~= Seq::<MessageView>::empty());
    }
    id
}

/// Queue `payload` from `sender` at the back of `endpoint`'s queue.
pub fn send(s: &mut IpcEndpoints, endpoint: EndpointId, sender: ProcessId, payload: &[u8]) -> (r:
    Result<(), EndpointError>)
    ensures
        payload@.len() > MAX_ENDPOINT_MSG_BYTES ==> r == Err::<(), EndpointError>(
            EndpointError::TooLarge,
        ),
        payload@.len() <= MAX_ENDPOINT_MSG_BYTES && !old(s).has_endpoint(endpoint) ==> r == Err::<
            (),
            EndpointError,
        >(EndpointError::NotFound),
        payload@.len() <= MAX_ENDPOINT_MSG_BYTES && old(s).has_endpoint(endpoint) && old(s).queue(
            endpoint,
        ).len() >= MAX_ENDPOINT_QUEUE ==> r == Err::<(), EndpointError>(EndpointError::QueueFull),
        r is Err ==> final(s).queues@ == old(s).queues@ && final(s).sends == old(s).sends,
        r is Ok ==> final(s).has_endpoint(endpoint) && final(s).queue(endpoint) == old(s).queue(
            endpoint,
        ).push((sender.0, payload@)) && final(s).sends == bumped(old(s).sends),
        r is Ok <==> (payload@.len() <= MAX_ENDPOINT_MSG_BYTES && old(s).has_endpoint(endpoint)
            && old(s).queue(endpoint).len() < MAX_ENDPOINT_QUEUE),
        final(s).others_same(old(s), endpoint),
        final(s).next_endpoint == old(s).next_endpoint,
        final(s).recvs == old(s).recvs,
{
    if payload.len() > MAX_ENDPOINT_MSG_BYTES {
        return Err(EndpointError::TooLarge);
    }
    let mut queue = match s.queues.remove(&endpoint.0) {
        Some(q) => q,
        None => return Err(EndpointError::NotFound),
    };
    if queue.len() >= MAX_ENDPOINT_QUEUE {
        s.queues.insert(endpoint.0, queue);
        assert(s.queues@ =~= old(s).queues@);
        return Err(EndpointError::QueueFull);
    }
    let ghost q0 = queue@;
    queue.push_back(EndpointMessage { sender, payload: copy_bytes(payload) });
    s.queues.insert(endpoint.0, queue);
    assert(s.queues@[endpoint.0]@.map_values(|m: EndpointMessage| message_view(m)) =~= q0.map_values(
        |m: EndpointMessage| message_view(m),
    ).push((sender.0, payload@)));
    s.sends = bump(s.sends);
    Ok(())
}

/// Take the oldest message queued at `endpoint`.
pub fn recv(s: &mut IpcEndpoints, endpoint: EndpointId) -> (r: Result<EndpointMessage, EndpointError>)
    ensures
        !old(s).has_endpoint(endpoint) ==> r == Err::<EndpointMessage, EndpointError>(
            EndpointError::NotFound,
        ),
        old(s).has_endpoint(endpoint) && old(s).queue(endpoint).len() == 0 ==> r == Err::<
            EndpointMessage,
            EndpointError,
        >(EndpointError::Empty),
        r is Err ==> final(s).queues@ == old(s).queues@ && final(s).recvs == old(s).recvs,
        r is Ok <==> old(s).has_endpoint(endpoint) && old(s).queue(endpoint).len() > 0,
        r is Ok ==> old(s).has_endpoint(endpoint) && old(s).queue(endpoint).len() > 0
            && message_view(r->Ok_0) == old(s).queue(endpoint)[0] && final(s).has_endpoint(endpoint)
            && final(s).queue(endpoint) == old(s).queue(endpoint).drop_first() && final(s).recvs
            == bumped(old(s).recvs),
        final(s).others_same(old(s), endpoint),
        final(s).next_endpoint == old(s).next_endpoint,
        final(s).sends == old(s).sends,
{
    let mut queue = match s.queues.remove(&endpoint.0) {
        Some(q) => q,
        None => return Err(EndpointError::NotFound),
    };
    if queue.len() == 0 {
        s.queues.insert(endpoint.0, queue);
        assert(s.queues@ =~= old(s).queues@);
        return Err(EndpointError::Empty);
    }
    let ghost q0 = queue@;
    let msg = match queue.pop_front() {
        Some(m) => m,
        None => {
            s.queues.insert(endpoint.0, queue);
            return Err(EndpointError::Empty);
        },
    };
    s.queues.insert(endpoint.0, queue);
    assert(s.queues@[endpoint.0]@.map_values(|m: EndpointMessage| message_view(m)) =~= q0.map_values(
        |m: EndpointMessage| message_view(m),
    ).drop_first());
    s.recvs = bump(s.recvs);
    Ok(msg)
}

/// Per-endpoint FIFO: a message sent to an empty endpoint is the next one
/// received, and a receive after sends returns the oldest message, leaving
/// the later ones in order.
pub proof fn lemma_endpoint_fifo(q: Seq<MessageView>, m: MessageView)
    ensures
        Seq::<MessageView>::empty().push(m)[0] == m,
        q.len() > 0 ==> q.push(m)[0] == q[0] && q.push(m).drop_first() == q.drop_first().push(m),
{
    if q.len() > 0 {
        assert(q.push(m).drop_first() =~= q.drop_first().push(m));
    }
}

/// The queue of an endpoint holding `q` once each message of `ms` was sent
/// to it in turn (every successful `send` pushes one at the back).
pub open spec fn after_sends(q: Seq<MessageView>, ms: Seq<MessageView>) -> Seq<MessageView>
    decreases ms.len(),
{
    if ms.len() == 0 {
        q
    } else {
        after_sends(q, ms.drop_last()).push(ms.last())
    }
}

/// The queue of an endpoint holding `q` after `k` successful receives
/// (every successful `recv` takes the front one).
pub open spec fn after_recvs(q: Seq<MessageView>, k: nat) -> Seq<MessageView>
    decreases k,
{
    if k == 0 {
        q
    } else {
        after_recvs(q, (k - 1) as nat).drop_first()
    }
}

proof fn lemma_after_sends(q: Seq<MessageView>, ms: Seq<MessageView>)
    ensures
        after_sends(q, ms) == q + ms,
    decreases ms.len(),
{
    if ms.len() > 0 {
        lemma_after_sends(q, ms.drop_last());
        assert(q + ms =~= (q + ms.drop_last()).push(ms.last()));
    } else {
        assert(q + ms =~= q);
    }
}

proof fn lemma_after_recvs(q: Seq<MessageView>, k: nat)
    requires
        k <= q.len(),
    ensures
        after_recvs(q, k) == q.skip(k as int),
    decreases k,
{
    if k > 0 {
        lemma_after_recvs(q, (k - 1) as nat);
        assert(q.skip(k - 1).drop_first() =~= q.skip(k as int));
    } else {
        assert(q.skip(0) =~= q);
    }
}

/// Per-endpoint FIFO over any run of calls: when messages `ms` are sent in
/// turn to an endpoint holding `q`, the receives that follow return the
/// messages of `q` and then those of `ms`, each in the order it was queued
/// (the `i`-th receive gets element `i` of `q + ms`), and once all have been
/// received the queue is empty.
pub proof fn lemma_endpoint_fifo_runs(q: Seq<MessageView>, ms: Seq<MessageView>)
    ensures
        forall|i: nat| i < q.len() + ms.len() ==> #[trigger] after_recvs(after_sends(q, ms), i)[0] == (q + ms)[i as int],
        after_recvs(after_sends(q, ms), (q.len() + ms.len()) as nat).len() == 0,
{
    lemma_after_sends(q, ms);
    assert forall|i: nat| i < q.len() + ms.len() implies #[trigger] after_recvs(after_sends(q, ms), i)[0] == (q + ms)[i as int] by {
        lemma_after_recvs(q + ms, i);
    }
    lemma_after_recvs(q + ms, (q.len() + ms.len()) as nat);
}

/// Retire the interim bridge so native endpoints are the only broker IPC
/// path; true when the bridge counter is zero afterwards.
pub fn activate_native_endpoints(bridge: &mut InterimBridge) -> (r: bool)
    ensures
        old(bridge).compat_internal > 0 && !old(bridge).retired ==> final(bridge).retired
            && final(bridge).compat_internal == 0,
        !(old(bridge).compat_internal > 0 && !old(bridge).retired) ==> final(bridge).retired == old(bridge).retired
            && final(bridge).compat_internal == old(bridge).compat_internal,
        final(bridge).sessions@ == old(bridge).sessions@,
        final(bridge).e00_saturations == old(bridge).e00_saturations,
        r == (final(bridge).compat_internal == 0),
{
    if crate::ipc_interim_bridge::ipc_bridge_compat_internal_count(bridge) > 0
        && !crate::ipc_interim_bridge::is_retired(bridge) {
        crate::ipc_interim_bridge::retire_bridge(bridge);
    }
    crate::ipc_interim_bridge::ipc_bridge_compat_internal_count(bridge) == 0
}

/// The three messages of the ordering corpus from `pid`, in order.
pub open spec fn ordering_msgs(pid: u64) -> Seq<MessageView> {
    seq![(pid, seq![1u8]), (pid, seq![2u8]), (pid, seq![3u8])]
}

/// What the ordering corpus finds already queued at the endpoint it
/// creates: the queue kept under the next id, if there is one.
pub open spec fn corpus_backlog(s: &IpcEndpoints) -> Seq<MessageView> {
    if s.has_endpoint(EndpointId(s.next_endpoint)) {
        s.queue(EndpointId(s.next_endpoint))
    } else {
        Seq::empty()
    }
}

/// Ordering corpus: three messages from one sender come back 1, 2, 3.
pub fn p134_ordering_corpus(s: &mut IpcEndpoints, procs: &mut ProcessTable) -> (r: bool)
    requires
        old(procs).wf(),
    ensures
        final(procs).wf(),
        (old(procs).smoke_pid is Some || old(procs).procs@.len() < MAX_PROCESSES) && !old(s).has_endpoint(EndpointId(old(s).next_endpoint)) ==> r,
        r == ((old(procs).smoke_pid is Some || old(procs).procs@.len() < MAX_PROCESSES)
            && corpus_backlog(old(s)).len() + 3 <= MAX_ENDPOINT_QUEUE
            && (corpus_backlog(old(s)) + ordering_msgs(crate::ipc_interim_bridge::next_smoke_pid(old(procs)))).take(3)
            == ordering_msgs(crate::ipc_interim_bridge::next_smoke_pid(old(procs)))),
{
    let pid = match ensure_smoke_process(procs) {
        Some(p) => p,
        None => return false,
    };
    let ghost q0 = corpus_backlog(old(s));
    let ghost ms = ordering_msgs(pid.0);
    assert(pid.0 == crate::ipc_interim_bridge::next_smoke_pid(old(procs)));
    let ep = create_endpoint(s);
    assert(s.queue(ep) =~= q0);
    let mut n: u8 = 1;
    while n <= 3
        invariant
            1 <= n <= 4,
            procs.wf(),
            q0 == corpus_backlog(old(s)),
            ms == ordering_msgs(pid.0),
            pid.0 == crate::ipc_interim_bridge::next_smoke_pid(old(procs)),
            s.has_endpoint(ep),
            s.queue(ep) == q0 + ms.take(n - 1),
            n > 1 ==> q0.len() + n - 1 <= MAX_ENDPOINT_QUEUE,
        decreases 4 - n,
    {
        let buf: [u8; 1] = [n];
        assert(buf@ == seq![n]);
        if send(s, ep, pid, &buf).is_err() {
            return false;
        }
        assert(ms.take(n as int) =~= ms.take(n - 1).push((pid.0, seq![n])));
        assert(s.queue(ep) =~= q0 + ms.take(n as int));
        n += 1;
    }
    assert(ms.take(3) =~= ms);
    let ghost all = q0 + ms;
    let mut expected: u8 = 1;
    while expected <= 3
        invariant
            1 <= expected <= 4,
            procs.wf(),
            q0 == corpus_backlog(old(s)),
            ms == ordering_msgs(pid.0),
            all == q0 + ms,
            pid.0 == crate::ipc_interim_bridge::next_smoke_pid(old(procs)),
            s.has_endpoint(ep),
            s.queue(ep) == all.skip(expected - 1),
            forall|k: int| 0 <= k < expected - 1 ==> #[trigger] all[k] == ms[k],
        decreases 4 - expected,
    {
        assert(ms[expected - 1] == (pid.0, seq![expected]));
        let ghost before = s.queue(ep);
        assert(before.len() > 0);
        let ok = match recv(s, ep) {
            Ok(m) => {
                let same = m.sender.0 == pid.0 && m.payload.len() == 1 && m.payload[0] == expected;
                proof {
                    if same {
                        assert(m.payload@ =~= seq![expected]);
                    }
                }
                same
            },
            Err(_) => false,
        };
        proof {
            assert(all.skip(expected - 1)[0] == all[expected - 1]);
            if !ok {
                assert(all[expected - 1] != ms[expected - 1]);
                assert(all.take(3)[expected - 1] != ms[expected - 1]);
                assert(all.take(3) != ms);
            }
        }
        if !ok {
            return false;
        }
        assert(all.skip(expected - 1).drop_first() =~= all.skip(expected as int));
        expected += 1;
    }
    assert(all.take(3) =~= ms);
    true
}

/// Endpoint smoke: the interim bridge is retired, its counter reads zero,
/// and the ordering corpus passes.
pub fn smoke_ipc_endpoint(
    s: &mut IpcEndpoints,
    bridge: &mut InterimBridge,
    procs: &mut ProcessTable,
) -> (r: bool)
    requires
        old(procs).wf(),
    ensures
        final(procs).wf(),
        r ==> final(bridge).compat_internal == 0,
        (old(bridge).compat_internal > 0 && !old(bridge).retired) ==> final(bridge).retired,
        r ==> (old(bridge).compat_internal == 0 || !old(bridge).retired),
        (old(bridge).compat_internal == 0 || !old(bridge).retired)
            && (old(procs).smoke_pid is Some || old(procs).procs@.len() < MAX_PROCESSES)
            && !old(s).has_endpoint(EndpointId(old(s).next_endpoint)) ==> r,
{
    let retired = activate_native_endpoints(bridge);
    let counter_zero = crate::ipc_interim_bridge::ipc_bridge_compat_internal_count(bridge) == 0;
    let ordering = p134_ordering_corpus(s, procs);
    retired && counter_zero && ordering
}

} // verus!
