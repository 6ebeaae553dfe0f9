//! Interim IPC bridge (`compat-internal`), retired once native endpoints
//! take over.
use vstd::prelude::*;

use crate::bytes::copy_bytes;
use crate::counter::{bump, bumped};
use crate::kernel_object::ensure_smoke_process;
use crate::process::{ProcessId, ProcessTable, MAX_PROCESSES};
use crate::service_loader::{ErrorClass, NativeError, ERR_CAP_QUOTA, E00_SATURATED};
use std::collections::BTreeMap;
use std::collections::VecDeque;

verus! {

broadcast use vstd::laws_cmp::group_laws_cmp;

pub const MAX_MSG_BYTES: usize = 256;
pub const MAX_QUEUE_PER_SESSION: usize = 4;

#[derive(Debug)]
pub struct InterimMessage {
    pub payload: Vec<u8>,
}

#[derive(Debug, Clone, Copy, PartialEq, Eq, Structural)]
pub enum BridgeError {
    Saturated,
    TooLarge,
    Empty,
    Retired,
}

/// Bridge state: the compat-internal use counter, the retirement flag, the
/// saturation counter and the per-(process, session) queues.
pub struct InterimBridge {
    pub compat_internal: u64,
    pub retired: bool,
    pub e00_saturations: u64,
    pub sessions: BTreeMap<(u64, u32), VecDeque<InterimMessage>>,
}

impl InterimBridge {
    pub fn new() -> (r: Self)
        ensures
            r.compat_internal == 0,
            !r.retired,
            r.e00_saturations == 0,
            r.sessions@ == Map::<(u64, u32), VecDeque<InterimMessage>>::empty(),
    {
        InterimBridge {
            compat_internal: 0,
            retired: false,
            e00_saturations: 0,
            sessions: BTreeMap::new(),
        }
    }

    pub open spec fn has_session(&self, key: (u64, u32)) -> bool {
        self.sessions@.contains_key(key)
    }

    /// The payloads queued for a session, oldest first.
    pub open spec fn session(&self, key: (u64, u32)) -> Seq<Seq<u8>> {
        self.sessions@[key]@.map_values(|m: InterimMessage| m.payload@)
    }
}

/// CI counter of bridge uses; must reach zero once the bridge is retired.
pub fn ipc_bridge_compat_internal_count(b: &InterimBridge) -> (r: u64)
    ensures
        r == b.compat_internal,
{
    b.compat_internal
}

pub fn is_retired(b: &InterimBridge) -> (r: bool)
    ensures
        r == b.retired,
{
    b.retired
}

/// Retire the bridge and reset its use counter.
pub fn retire_bridge(b: &mut InterimBridge)
    ensures
        final(b).retired,
        final(b).compat_internal == 0,
        final(b).e00_saturations == old(b).e00_saturations,
        final(b).sessions@ == old(b).sessions@,
{
    b.retired = true;
    b.compat_internal = 0;
}

pub fn e00_saturation_count(b: &InterimBridge) -> (r: u64)
    ensures
        r == b.e00_saturations,
{
    b.e00_saturations
}

fn touch_bridge(b: &mut InterimBridge)
    ensures
        old(b).retired ==> final(b).compat_internal == old(b).compat_internal,
        !old(b).retired ==> final(b).compat_internal == bumped(old(b).compat_internal),
        final(b).retired == old(b).retired,
        final(b).e00_saturations == old(b).e00_saturations,
        final(b).sessions@ == old(b).sessions@,
{
    if b.retired {
        return;
    }
    b.compat_internal = bump(b.compat_internal);
}

pub fn send(b: &mut InterimBridge, pid: ProcessId, session_id: u32, payload: &[u8]) -> (r: Result<
    (),
    BridgeError,
>)
    ensures
        old(b).retired ==> r == Err::<(), BridgeError>(BridgeError::Retired) && *final(b)
            == *old(b),
        !old(b).retired ==> final(b).compat_internal == bumped(old(b).compat_internal)
            && !final(b).retired,
        !old(b).retired && payload@.len() > MAX_MSG_BYTES ==> r == Err::<(), BridgeError>(
            BridgeError::TooLarge,
        ) && final(b).sessions@ == old(b).sessions@,
        !old(b).retired && payload@.len() <= MAX_MSG_BYTES ==> {
            let key = (pid.0, session_id);
            let q = if old(b).has_session(key) {
                old(b).session(key)
            } else {
                Seq::<Seq<u8>>::empty()
            };
            &&& final(b).has_session(key)
            &&& forall|k: (u64, u32)| k != key ==> (#[trigger] final(b).sessions@.contains_key(k))
                == old(b).sessions@.contains_key(k) && (old(b).sessions@.contains_key(k)
                ==> final(b).sessions@[k] == old(b).sessions@[k])
            &&& q.len() >= MAX_QUEUE_PER_SESSION ==> r == Err::<(), BridgeError>(
                BridgeError::Saturated,
            ) && final(b).session(key) == q && final(b).e00_saturations == bumped(
                old(b).e00_saturations,
            )
            &&& q.len() < MAX_QUEUE_PER_SESSION ==> r == Ok::<(), BridgeError>(()) && final(b).session(key) == q.push(payload@) && final(b).e00_saturations == old(b).e00_saturations
        },
{
    if b.retired {
        return Err(BridgeError::Retired);
    }
    touch_bridge(b);
    if payload.len() > MAX_MSG_BYTES {
        return Err(BridgeError::TooLarge);
    }
    let key = (pid.0, session_id);
    let mut queue = match b.sessions.remove(&key) {
        Some(q) => q,
        None => VecDeque::new(),
    };
    let ghost q0 = queue@;
    assert(q0.map_values(|m: InterimMessage| m.payload@) =~= if old(b).has_session(key) {
        old(b).session(key)
    } else {
        Seq::<Seq<u8>>::empty()
    });
    if queue.len() >= MAX_QUEUE_PER_SESSION {
        b.e00_saturations = bump(b.e00_saturations);
        b.sessions.insert(key, queue);
        return Err(BridgeError::Saturated);
    }
    queue.push_back(InterimMessage { payload: copy_bytes(payload) });
    b.sessions.insert(key, queue);
    assert(b.sessions@[key]@.map_values(|m: InterimMessage| m.payload@) =~= q0.map_values(
        |m: InterimMessage| m.payload@,
    ).push(payload@));
    Ok(())
}

pub fn recv(b: &mut InterimBridge, pid: ProcessId, session_id: u32) -> (r: Result<
    InterimMessage,
    BridgeError,
>)
    ensures
        old(b).retired ==> r == Err::<InterimMessage, BridgeError>(BridgeError::Retired) && *final(b)
            == *old(b),
        !old(b).retired ==> final(b).compat_internal == bumped(old(b).compat_internal)
            && !final(b).retired && final(b).e00_saturations == old(b).e00_saturations,
        !old(b).retired ==> {
            let key = (pid.0, session_id);
            &&& !(old(b).has_session(key) && old(b).session(key).len() > 0) ==> r == Err::<
                InterimMessage,
                BridgeError,
            >(BridgeError::Empty) && final(b).sessions@ == old(b).sessions@
            &&& old(b).has_session(key) && old(b).session(key).len() > 0 ==> r is Ok
                && r->Ok_0.payload@ == old(b).session(key)[0] && final(b).has_session(key)
                && final(b).session(key) == old(b).session(key).drop_first() && (forall|k: (u64, u32)|
                k != key ==> (#[trigger] final(b).sessions@.contains_key(k))
                == old(b).sessions@.contains_key(k) && (old(b).sessions@.contains_key(k)
                ==> final(b).sessions@[k] == old(b).sessions@[k]))
        },
{
    if b.retired {
        return Err(BridgeError::Retired);
    }
    touch_bridge(b);
    let key = (pid.0, session_id);
    let mut queue = match b.sessions.remove(&key) {
        Some(q) => q,
        None => return Err(BridgeError::Empty),
    };
    if queue.len() == 0 {
        b.sessions.insert(key, queue);
        assert(b.sessions@ =~= old(b).sessions@);
        return Err(BridgeError::Empty);
    }
    let ghost q0 = queue@;
    match queue.pop_front() {
        Some(m) => {
            b.sessions.insert(key, queue);
            assert(b.sessions@[key]@.map_values(|m: InterimMessage| m.payload@) =~= q0.map_values(
                |m: InterimMessage| m.payload@,
            ).drop_first());
            Ok(m)
        },
        None => {
            b.sessions.insert(key, queue);
            Err(BridgeError::Empty)
        },
    }
}

/// Saturation is a transient E-00; every other bridge error is a
/// remediable cap-quota error.
pub fn map_bridge_error(err: BridgeError) -> (r: NativeError)
    ensures
        err == BridgeError::Saturated ==> r == (NativeError {
            code: E00_SATURATED,
            class: ErrorClass::Transient,
        }),
        err != BridgeError::Saturated ==> r == (NativeError {
            code: ERR_CAP_QUOTA,
            class: ErrorClass::StructuralRemediable,
        }),
{
    match err {
        BridgeError::Saturated => NativeError::e00_saturated(),
        BridgeError::Retired | BridgeError::TooLarge | BridgeError::Empty => NativeError {
            code: ERR_CAP_QUOTA,
            class: ErrorClass::StructuralRemediable,
        },
    }
}

/// The process id the smoke process has once it exists: the current one,
/// else the next id the table hands out.
pub open spec fn next_smoke_pid(procs: &ProcessTable) -> u64 {
    match procs.smoke_pid {
        Some(p) => p.0,
        None => (procs.procs@.len() + 1) as u64,
    }
}

/// Interim IPC smoke: FIFO round trip, then saturation of a session.
pub fn phase_interim_ipc_smoke(b: &mut InterimBridge, procs: &mut ProcessTable) -> (r: bool)
    requires
        old(procs).wf(),
    ensures
        final(procs).wf(),
        r ==> !old(b).retired,
        !old(b).retired && (old(procs).smoke_pid is Some || old(procs).procs@.len() < MAX_PROCESSES)
            && old(b).compat_internal < u64::MAX - 8 && (!old(b).has_session((next_smoke_pid(old(procs)), 1u32))
            || old(b).session((next_smoke_pid(old(procs)), 1u32)).len() == 0) ==> r,
{
    let ghost good = !old(b).retired && old(b).compat_internal < u64::MAX - 8 && (!old(b).has_session(
        (next_smoke_pid(old(procs)), 1u32),
    ) || old(b).session((next_smoke_pid(old(procs)), 1u32)).len() == 0);
    let pid = match ensure_smoke_process(procs) {
        Some(p) => p,
        None => return false,
    };
    let before = ipc_bridge_compat_internal_count(b);
    let hello: [u8; 5] = [0x68, 0x65, 0x6c, 0x6c, 0x6f];
    let s1 = send(b, pid, 1, &hello).is_ok();
    proof {
        if good {
            assert(b.session((pid.0, 1u32)) =~= seq![hello@]);
        }
    }
    let fifo_ok = match recv(b, pid, 1) {
        Ok(m) => crate::bytes::bytes_eq(m.payload.as_slice(), &hello),
        Err(_) => false,
    };
    let mut i: usize = 0;
    while i < MAX_QUEUE_PER_SESSION
        invariant
            i <= MAX_QUEUE_PER_SESSION,
            good ==> !b.retired && b.compat_internal == before + 2 + i && before < u64::MAX - 8,
            good ==> s1 && fifo_ok,
            good && i > 0 ==> b.has_session((pid.0, 2u32)) && b.session((pid.0, 2u32)).len() >= i,
        decreases MAX_QUEUE_PER_SESSION - i,
    {
        let one: [u8; 1] = [i as u8];
        let _ = send(b, pid, 2, &one);
        i += 1;
    }
    let x: [u8; 1] = [0x78];
    let saturated = send(b, pid, 2, &x).is_err();
    let after = ipc_bridge_compat_internal_count(b);
    s1 && fifo_ok && saturated && after > before
}

} // verus!
