//! Universal kernel object model and per-process capability table.
//!
//! A cap slot holds `(ObjectId, Kind, Rights, Generation)`; objects live in a
//! registry keyed by id and are invalidated by bumping their generation.
use vstd::prelude::*;

use crate::counter::{bump, bumped};
use crate::process::{ProcessId, ProcessMode, ProcessTable};
use crate::security::Credentials;
use std::collections::BTreeMap;

verus! {

broadcast use vstd::laws_cmp::group_laws_cmp;

pub const MAX_CAPS: usize = 16;

/// Stable object identity.
#[derive(Debug, Clone, Copy, PartialEq, Eq, Structural)]
pub struct ObjectId(pub u64);

impl ObjectId {
    pub fn from_raw(id: u64) -> (r: Self)
        ensures
            r.0 == id,
    {
        ObjectId(id)
    }

    pub fn as_u64(self) -> (r: u64)
        ensures
            r == self.0,
    {
        self.0
    }
}

/// Invalidation epoch, bumped on revoke.
#[derive(Debug, Clone, Copy, PartialEq, Eq, Structural)]
pub struct Generation(pub u32);

/// The generation every object starts with.
pub const INITIAL_GENERATION: u32 = 1;

impl Generation {
    /// The next generation, saturating at `u32::MAX`.
    pub fn bump(self) -> (r: Self)
        ensures
            r.0 == if self.0 == u32::MAX {
                u32::MAX
            } else {
                (self.0 + 1) as u32
            },
    {
        Generation(self.0.saturating_add(1))
    }
}

#[derive(Debug, Clone, Copy, PartialEq, Eq, Structural)]
pub enum ObjectKind {
    Process,
    Endpoint,
    MemoryRegion,
    Service,
    Device,
    FsNode,
    GpuContext,
    BrokerSession,
}

/// A set of rights bits.
#[derive(Debug, Clone, Copy, PartialEq, Eq, Structural)]
pub struct Rights(pub u32);

pub open spec fn rights_contain(a: Rights, b: Rights) -> bool {
    (a.0 & b.0) == b.0
}

impl Rights {
    pub const READ: u32 = 1;
    pub const WRITE: u32 = 2;
    pub const MAP: u32 = 4;
    pub const DELEGATE: u32 = 8;
    pub const REVOKE: u32 = 16;

    pub fn empty() -> (r: Self)
        ensures
            r.0 == 0,
    {
        Rights(0)
    }

    pub fn read_write() -> (r: Self)
        ensures
            r.0 == 3,
    {
        Rights(3)
    }

    pub fn all_for_smoke() -> (r: Self)
        ensures
            r.0 == 31,
    {
        Rights(31)
    }

    pub fn contains(self, other: Rights) -> (r: bool)
        ensures
            r == rights_contain(self, other),
    {
        (self.0 & other.0) == other.0
    }

    pub fn intersect(self, other: Rights) -> (r: Rights)
        ensures
            r.0 == self.0 & other.0,
    {
        Rights(self.0 & other.0)
    }
}

/// Containment of rights is a partial order, and an intersection is
/// contained in both operands.
pub proof fn lemma_rights_order(a: Rights, b: Rights, c: Rights)
    ensures
        rights_contain(a, a),
        rights_contain(a, b) && rights_contain(b, c) ==> rights_contain(a, c),
        rights_contain(a, b) && rights_contain(b, a) ==> a == b,
        rights_contain(a, Rights(a.0 & b.0)) && rights_contain(b, Rights(a.0 & b.0)),
        rights_contain(a, Rights(0)),
{
    let (x, y, z) = (a.0, b.0, c.0);
    assert(x & x == x && ((x & y) == y && (y & z) == z ==> (x & z) == z) && ((x & y) == y && (y & x) == x
        ==> x == y) && (x & (x & y)) == (x & y) && (y & (x & y)) == (x & y) && x & 0 == 0) by (bit_vector);
}

#[derive(Debug, Clone, Copy, PartialEq, Eq, Structural)]
pub struct CapSlotStorage {
    pub object_id: ObjectId,
    pub kind: ObjectKind,
    pub generation: Generation,
    pub rights: Rights,
}

#[derive(Debug, Clone, Copy)]
pub struct KernelObjectRecord {
    pub kind: ObjectKind,
    pub generation: Generation,
    pub max_rights: Rights,
    /// Broker-local id for `FsNode` objects (no path string in cap metadata).
    pub fsnode_local_id: Option<u32>,
}

#[derive(Debug, Clone, Copy)]
pub struct StorageGrant {
    pub grant_id: u32,
    pub object_id: ObjectId,
    pub rights: Rights,
}

#[derive(Debug, Clone, Copy, PartialEq, Eq, Structural)]
pub enum CapError {
    NoSlot,
    NotFound,
    InvalidGeneration,
    AmplificationDenied,
    AmbientDenied,
    InvalidArgument,
}

/// The object registry, the storage grants and the capability counters.
pub struct KernelObjects {
    pub registry: BTreeMap<u64, KernelObjectRecord>,
    pub next_object_id: u64,
    pub next_grant_id: u32,
    pub grants: Vec<StorageGrant>,
    pub amplification_denied: u64,
    pub cap_creates: u64,
    pub cap_closes: u64,
    pub cap_transfers: u64,
    pub cap_delegates: u64,
}

impl KernelObjects {
    pub fn new() -> (r: Self)
        ensures
            r.registry@ == Map::<u64, KernelObjectRecord>::empty(),
            r.next_object_id == 1,
            r.next_grant_id == 1,
            r.grants@.len() == 0,
            r.amplification_denied == 0,
            r.cap_creates == 0,
            r.cap_closes == 0,
            r.cap_transfers == 0,
            r.cap_delegates == 0,
    {
        KernelObjects {
            registry: BTreeMap::new(),
            next_object_id: 1,
            next_grant_id: 1,
            grants: Vec::new(),
            amplification_denied: 0,
            cap_creates: 0,
            cap_closes: 0,
            cap_transfers: 0,
            cap_delegates: 0,
        }
    }

    pub open spec fn has_object(&self, id: ObjectId) -> bool {
        self.registry@.contains_key(id.0)
    }

    pub open spec fn record(&self, id: ObjectId) -> KernelObjectRecord {
        self.registry@[id.0]
    }

    /// The counters other than the ones named by an operation stay put.
    pub open spec fn same_counters(&self, other: &KernelObjects) -> bool {
        &&& self.amplification_denied == other.amplification_denied
        &&& self.cap_creates == other.cap_creates
        &&& self.cap_closes == other.cap_closes
        &&& self.cap_transfers == other.cap_transfers
        &&& self.cap_delegates == other.cap_delegates
    }

    pub open spec fn same_objects(&self, other: &KernelObjects) -> bool {
        &&& self.registry@ == other.registry@
        &&& self.next_object_id == other.next_object_id
        &&& self.next_grant_id == other.next_grant_id
        &&& self.grants@ == other.grants@
    }
}

pub fn amplification_denied_count(objs: &KernelObjects) -> (r: u64)
    ensures
        r == objs.amplification_denied,
{
    objs.amplification_denied
}

pub fn cap_status(objs: &KernelObjects) -> (r: (u64, u64, u64, u64))
    ensures
        r == (objs.cap_creates, objs.cap_closes, objs.cap_transfers, objs.cap_delegates),
{
    (objs.cap_creates, objs.cap_closes, objs.cap_transfers, objs.cap_delegates)
}

pub fn register_object(objs: &mut KernelObjects, kind: ObjectKind, max_rights: Rights) -> (r:
    ObjectId)
    ensures
        r.0 == old(objs).next_object_id,
        final(objs).next_object_id == bumped(old(objs).next_object_id),
        final(objs).registry@ == old(objs).registry@.insert(
            r.0,
            KernelObjectRecord {
                kind,
                generation: Generation(1),
                max_rights,
                fsnode_local_id: None,
            },
        ),
        final(objs).grants@ == old(objs).grants@,
        final(objs).next_grant_id == old(objs).next_grant_id,
        final(objs).same_counters(old(objs)),
        ids_below_next(old(objs)) && old(objs).next_object_id < u64::MAX ==> ids_below_next(final(objs))
            && registry_advances(old(objs), final(objs)),
{
    let id = ObjectId(objs.next_object_id);
    objs.next_object_id = bump(objs.next_object_id);
    objs.registry.insert(
        id.0,
        KernelObjectRecord {
            kind,
            generation: Generation(INITIAL_GENERATION),
            max_rights,
            fsnode_local_id: None,
        },
    );
    id
}

pub fn register_fsnode_object(objs: &mut KernelObjects, local_id: u32, max_rights: Rights) -> (r:
    ObjectId)
    ensures
        r.0 == old(objs).next_object_id,
        final(objs).next_object_id == bumped(old(objs).next_object_id),
        final(objs).registry@ == old(objs).registry@.insert(
            r.0,
            KernelObjectRecord {
                kind: ObjectKind::FsNode,
                generation: Generation(1),
                max_rights,
                fsnode_local_id: Some(local_id),
            },
        ),
        final(objs).grants@ == old(objs).grants@,
        final(objs).next_grant_id == old(objs).next_grant_id,
        final(objs).same_counters(old(objs)),
        ids_below_next(old(objs)) && old(objs).next_object_id < u64::MAX ==> ids_below_next(final(objs))
            && registry_advances(old(objs), final(objs)),
{
    let id = register_object(objs, ObjectKind::FsNode, max_rights);
    match objs.registry.get(&id.0) {
        Some(rec) => {
            let mut rec = *rec;
            rec.fsnode_local_id = Some(local_id);
            objs.registry.insert(id.0, rec);
        },
        None => {},
    }
    id
}

pub fn object_generation(objs: &KernelObjects, object_id: ObjectId) -> (r: Option<Generation>)
    ensures
        objs.has_object(object_id) ==> r == Some(objs.record(object_id).generation),
        !objs.has_object(object_id) ==> r is None,
{
    match objs.registry.get(&object_id.0) {
        Some(rec) => Some(rec.generation),
        None => None,
    }
}

/// Invalidate every cap minted for `object_id` so far by advancing its
/// generation; `false` when the object is unknown.
pub fn bump_object_generation(objs: &mut KernelObjects, object_id: ObjectId) -> (r: bool)
    ensures
        r == old(objs).has_object(object_id),
        r ==> final(objs).registry@ == old(objs).registry@.insert(
            object_id.0,
            KernelObjectRecord {
                generation: Generation(
                    if old(objs).record(object_id).generation.0 == u32::MAX {
                        u32::MAX
                    } else {
                        (old(objs).record(object_id).generation.0 + 1) as u32
                    },
                ),
                ..old(objs).record(object_id)
            },
        ),
        !r ==> final(objs).registry@ == old(objs).registry@,
        final(objs).next_object_id == old(objs).next_object_id,
        final(objs).grants@ == old(objs).grants@,
        final(objs).next_grant_id == old(objs).next_grant_id,
        final(objs).same_counters(old(objs)),
        registry_advances(old(objs), final(objs)),
        ids_below_next(old(objs)) ==> ids_below_next(final(objs)),
{
    match objs.registry.get(&object_id.0) {
        Some(rec) => {
            let mut rec = *rec;
            rec.generation = rec.generation.bump();
            objs.registry.insert(object_id.0, rec);
            true
        },
        None => false,
    }
}

/// Whether a cap names a live object of its kind and generation, within the
/// object's maximal rights.
pub open spec fn validate_spec(objs: &KernelObjects, cap: CapSlotStorage) -> Result<(), CapError> {
    if !objs.has_object(cap.object_id) {
        Err(CapError::NotFound)
    } else if objs.record(cap.object_id).kind != cap.kind {
        Err(CapError::NotFound)
    } else if objs.record(cap.object_id).generation != cap.generation {
        Err(CapError::InvalidGeneration)
    } else if !rights_contain(objs.record(cap.object_id).max_rights, cap.rights) {
        Err(CapError::AmplificationDenied)
    } else {
        Ok(())
    }
}

fn validate_cap_slot(
    objs: &KernelObjects,
    object_id: ObjectId,
    kind: ObjectKind,
    generation: Generation,
    rights: Rights,
) -> (r: Result<(), CapError>)
    ensures
        r == validate_spec(objs, CapSlotStorage { object_id, kind, generation, rights }),
{
    let rec = match objs.registry.get(&object_id.0) {
        Some(rec) => rec,
        None => return Err(CapError::NotFound),
    };
    if rec.kind != kind {
        return Err(CapError::NotFound);
    }
    if rec.generation != generation {
        return Err(CapError::InvalidGeneration);
    }
    if !rec.max_rights.contains(rights) {
        return Err(CapError::AmplificationDenied);
    }
    Ok(())
}

/// Revocation: once an object's generation has moved on, a cap carrying the
/// old generation no longer validates.
pub proof fn lemma_bumped_generation_invalidates(
    before: &KernelObjects,
    after: &KernelObjects,
    cap: CapSlotStorage,
)
    requires
        validate_spec(before, cap) is Ok,
        before.record(cap.object_id).generation.0 < u32::MAX,
        after.registry@ == before.registry@.insert(
            cap.object_id.0,
            KernelObjectRecord {
                generation: Generation((before.record(cap.object_id).generation.0 + 1) as u32),
                ..before.record(cap.object_id)
            },
        ),
    ensures
        validate_spec(after, cap) == Err::<(), CapError>(CapError::InvalidGeneration),
{
}

/// Number of occupied slots.
pub open spec fn count_some<T>(s: Seq<Option<T>>) -> nat
    decreases s.len(),
{
    if s.len() == 0 {
        0
    } else {
        count_some(s.drop_last()) + if s.last() is Some {
            1nat
        } else {
            0nat
        }
    }
}

pub proof fn lemma_count_some_bound<T>(s: Seq<Option<T>>)
    ensures
        count_some(s) <= s.len(),
        count_some(s) == 0 <==> forall|i: int| 0 <= i < s.len() ==> (#[trigger] s[i]) is None,
    decreases s.len(),
{
    if s.len() > 0 {
        lemma_count_some_bound(s.drop_last());
        assert forall|i: int| 0 <= i < s.len() - 1 implies #[trigger] s.drop_last()[i] == s[i] by {}
        if count_some(s) == 0 {
            assert forall|i: int| 0 <= i < s.len() implies (#[trigger] s[i]) is None by {
                if i < s.len() - 1 {
                    assert(s.drop_last()[i] == s[i]);
                }
            }
        }
    }
}

/// Filling an empty slot adds one to the number of occupied slots.
pub proof fn lemma_count_some_fill<T>(s: Seq<Option<T>>, i: int, v: T)
    requires
        0 <= i < s.len(),
        s[i] is None,
    ensures
        count_some(s.update(i, Some(v))) == count_some(s) + 1,
    decreases s.len(),
{
    let u = s.update(i, Some(v));
    if i == s.len() - 1 {
        assert(u.drop_last() =~= s.drop_last());
    } else {
        lemma_count_some_fill(s.drop_last(), i, v);
        assert(u.drop_last() =~= s.drop_last().update(i, Some(v)));
    }
}

fn count_caps(caps: &Vec<Option<CapSlotStorage>>) -> (r: usize)
    ensures
        r == count_some(caps@),
{
    let mut n: usize = 0;
    let mut i: usize = 0;
    while i < caps.len()
        invariant
            i <= caps@.len(),
            n == count_some(caps@.subrange(0, i as int)),
            n <= i,
        decreases caps@.len() - i,
    {
        assert(caps@.subrange(0, i + 1).drop_last() =~= caps@.subrange(0, i as int));
        if caps[i].is_some() {
            n += 1;
        }
        i += 1;
    }
    assert(caps@.subrange(0, caps@.len() as int) =~= caps@);
    n
}

pub open spec fn spec_cap_count(procs: &ProcessTable, pid: ProcessId) -> nat {
    if procs.has(pid) {
        count_some(procs.caps_of(pid))
    } else {
        0
    }
}

pub fn cap_count_for_process(procs: &ProcessTable, pid: ProcessId) -> (r: usize)
    requires
        procs.wf(),
    ensures
        r == spec_cap_count(procs, pid),
{
    if pid.0 >= 1 && pid.0 <= procs.procs.len() as u64 {
        count_caps(&procs.procs[(pid.0 - 1) as usize].caps)
    } else {
        0
    }
}

/// Native processes get no ambient authority: with no caps they may do
/// nothing.
pub open spec fn ambient_allows(procs: &ProcessTable, pid: ProcessId) -> bool {
    procs.mode_of(pid) != ProcessMode::Native || spec_cap_count(procs, pid) > 0
}

pub fn native_ambient_allows(procs: &ProcessTable, pid: ProcessId) -> (r: bool)
    requires
        procs.wf(),
    ensures
        r == ambient_allows(procs, pid),
{
    if procs.process_mode(pid) != ProcessMode::Native {
        return true;
    }
    cap_count_for_process(procs, pid) > 0
}

pub open spec fn has_free_slot(procs: &ProcessTable, pid: ProcessId) -> bool {
    exists|j: int| 0 <= j < MAX_CAPS && (#[trigger] procs.caps_of(pid)[j]) is None
}

/// `pid` has at least two free cap slots.
pub open spec fn two_free_slots(procs: &ProcessTable, pid: ProcessId) -> bool {
    exists|a: int, b: int| 0 <= a < b < MAX_CAPS && (#[trigger] procs.caps_of(pid)[a]) is None
        && (#[trigger] procs.caps_of(pid)[b]) is None
}

/// `pid` has at least three free cap slots.
pub open spec fn three_free_slots(procs: &ProcessTable, pid: ProcessId) -> bool {
    exists|a: int, b: int, c: int| 0 <= a < b < c < MAX_CAPS && (#[trigger] procs.caps_of(pid)[a]) is None
        && (#[trigger] procs.caps_of(pid)[b]) is None && (#[trigger] procs.caps_of(pid)[c]) is None
}

/// Storing a cap in the first free slot of `pid` uses up one free slot and
/// keeps every cap already held.
pub proof fn lemma_store_free_slots(before: &ProcessTable, after: &ProcessTable, pid: ProcessId, i: int, cap: CapSlotStorage)
    requires
        before.wf(),
        after.wf(),
        before.has(pid),
        after.has(pid),
        stored_at(before, after, pid, i, cap),
    ensures
        three_free_slots(before, pid) ==> two_free_slots(after, pid),
        two_free_slots(before, pid) ==> has_free_slot(after, pid),
        spec_cap_count(before, pid) > 0 ==> spec_cap_count(after, pid) > 0,
        spec_cap_count(after, pid) == spec_cap_count(before, pid) + 1,
{
    let bc = before.caps_of(pid);
    let ac = after.caps_of(pid);
    assert(ac == bc.update(i, Some(cap)));
    lemma_count_some_fill(bc, i, cap);
    if three_free_slots(before, pid) {
        let (a, b, c) = choose|a: int, b: int, c: int| 0 <= a < b < c < MAX_CAPS && (#[trigger] bc[a]) is None
            && (#[trigger] bc[b]) is None && (#[trigger] bc[c]) is None;
        if i == a {
            assert(ac[b] is None && ac[c] is None);
        } else {
            assert(i < a);
            assert(ac[a] is None && ac[b] is None);
        }
    }
    if two_free_slots(before, pid) {
        let (a, b) = choose|a: int, b: int| 0 <= a < b < MAX_CAPS && (#[trigger] bc[a]) is None
            && (#[trigger] bc[b]) is None;
        if i == a {
            assert(ac[b] is None);
        } else {
            assert(ac[a] is None);
        }
    }
    if spec_cap_count(before, pid) > 0 {
        lemma_count_some_bound(bc);
        lemma_count_some_bound(ac);
        let j = choose|j: int| 0 <= j < bc.len() && (#[trigger] bc[j]) is Some;
        assert(ac[j] is Some);
    }
}

/// The table after `cap` was stored in slot `i` of process `pid`.
pub open spec fn stored_at(
    before: &ProcessTable,
    after: &ProcessTable,
    pid: ProcessId,
    i: int,
    cap: CapSlotStorage,
) -> bool {
    &&& 0 <= i < MAX_CAPS
    &&& before.caps_of(pid)[i] is None
    &&& forall|j: int| 0 <= j < i ==> (#[trigger] before.caps_of(pid)[j]) is Some
    &&& after.caps_of(pid) == before.caps_of(pid).update(i, Some(cap))
    &&& after.proc_at(pid).mode == before.proc_at(pid).mode
    &&& after.proc_at(pid).owner == before.proc_at(pid).owner
    &&& after.fds_of(pid) == before.fds_of(pid)
    &&& after.others_unchanged(before, pid)
}

/// Cap `c` names a registered object, carries that object's kind, and a
/// generation no later than the object's.
pub open spec fn cap_matches(objs: &KernelObjects, c: CapSlotStorage) -> bool {
    &&& objs.has_object(c.object_id)
    &&& objs.record(c.object_id).kind == c.kind
    &&& c.generation.0 <= objs.record(c.object_id).generation.0
}

/// Every cap a process holds matches the registry.
pub open spec fn caps_consistent(objs: &KernelObjects, procs: &ProcessTable) -> bool {
    forall|pid: ProcessId, s: u32| #[trigger] spec_get_cap(procs, pid, s) is Some ==> cap_matches(
        objs,
        spec_get_cap(procs, pid, s)->Some_0,
    )
}

/// The registry moved on from `a` to `b`: every object is still there, of
/// the same kind, with a generation no earlier.
pub open spec fn registry_advances(a: &KernelObjects, b: &KernelObjects) -> bool {
    forall|k: u64| #[trigger] a.registry@.contains_key(k) ==> b.registry@.contains_key(k) && b.registry@[k].kind
        == a.registry@[k].kind && a.registry@[k].generation.0 <= b.registry@[k].generation.0
}

/// Every registered id lies below the next one to be handed out.
pub open spec fn ids_below_next(objs: &KernelObjects) -> bool {
    forall|k: u64| #[trigger] objs.registry@.contains_key(k) ==> k < objs.next_object_id
}

/// An empty registry with no processes is consistent.
pub proof fn lemma_empty_consistent(objs: &KernelObjects, procs: &ProcessTable)
    requires
        procs.procs@.len() == 0,
    ensures
        caps_consistent(objs, procs),
{
}

/// A registry that moves on keeps the caps consistent.
pub proof fn lemma_advance_keeps(a: &KernelObjects, b: &KernelObjects, procs: &ProcessTable)
    requires
        caps_consistent(a, procs),
        registry_advances(a, b),
    ensures
        caps_consistent(b, procs),
{
    assert forall|pid: ProcessId, s: u32| #[trigger] spec_get_cap(procs, pid, s) is Some implies cap_matches(
        b,
        spec_get_cap(procs, pid, s)->Some_0,
    ) by {
        let c = spec_get_cap(procs, pid, s)->Some_0;
        assert(a.registry@.contains_key(c.object_id.0));
    }
}

/// Storing a validated cap, or emptying a slot, of one process keeps the
/// caps consistent.
pub proof fn lemma_slot_change_keeps(
    objs: &KernelObjects,
    before: &ProcessTable,
    after: &ProcessTable,
    pid: ProcessId,
    i: int,
    v: Option<CapSlotStorage>,
)
    requires
        before.wf(),
        after.wf(),
        caps_consistent(objs, before),
        before.has(pid),
        0 <= i < MAX_CAPS,
        after.caps_of(pid) == before.caps_of(pid).update(i, v),
        after.others_unchanged(before, pid),
        v matches Some(c) ==> cap_matches(objs, c),
    ensures
        caps_consistent(objs, after),
{
    assert forall|q: ProcessId, t: u32| #[trigger] spec_get_cap(after, q, t) is Some implies cap_matches(
        objs,
        spec_get_cap(after, q, t)->Some_0,
    ) by {
        if q == pid {
            if t as int != i {
                assert(spec_get_cap(after, q, t) == spec_get_cap(before, q, t));
            }
        } else {
            if after.has(q) {
                assert(after.procs@[q.0 - 1] == before.procs@[q.0 - 1]);
            }
            assert(spec_get_cap(after, q, t) == spec_get_cap(before, q, t));
        }
    }
}

/// A cap that matched the registry before its object's generation was
/// bumped is refused afterwards as of a stale generation.
pub proof fn lemma_cap_refused_after_bump(before: &KernelObjects, after: &KernelObjects, c: CapSlotStorage)
    requires
        cap_matches(before, c),
        before.record(c.object_id).generation.0 < u32::MAX,
        after.registry@ == before.registry@.insert(
            c.object_id.0,
            KernelObjectRecord {
                generation: Generation((before.record(c.object_id).generation.0 + 1) as u32),
                ..before.record(c.object_id)
            },
        ),
    ensures
        validate_spec(after, c) == Err::<(), CapError>(CapError::InvalidGeneration),
{
}

/// Revocation over the whole table: once the generation of the object a
/// held cap names is bumped, that cap, read from any process's table, is
/// refused with `InvalidGeneration`; and while the registry only moves on
/// it stays refused.
pub proof fn lemma_revoked_generation_refused(
    before: &KernelObjects,
    after: &KernelObjects,
    later: &KernelObjects,
    procs: &ProcessTable,
    pid: ProcessId,
    slot: u32,
)
    requires
        caps_consistent(before, procs),
        spec_get_cap(procs, pid, slot) is Some,
        before.record(spec_get_cap(procs, pid, slot)->Some_0.object_id).generation.0 < u32::MAX,
        after.registry@ == before.registry@.insert(
            spec_get_cap(procs, pid, slot)->Some_0.object_id.0,
            KernelObjectRecord {
                generation: Generation(
                    (before.record(spec_get_cap(procs, pid, slot)->Some_0.object_id).generation.0 + 1) as u32,
                ),
                ..before.record(spec_get_cap(procs, pid, slot)->Some_0.object_id)
            },
        ),
        registry_advances(after, later),
    ensures
        validate_spec(after, spec_get_cap(procs, pid, slot)->Some_0) == Err::<(), CapError>(CapError::InvalidGeneration),
        validate_spec(later, spec_get_cap(procs, pid, slot)->Some_0) == Err::<(), CapError>(CapError::InvalidGeneration),
{
    let c = spec_get_cap(procs, pid, slot)->Some_0;
    assert(cap_matches(before, c));
    lemma_cap_refused_after_bump(before, after, c);
    assert(after.registry@.contains_key(c.object_id.0));
}

/// Store a validated cap in the first free slot of `pid`.
pub fn alloc_cap_slot(
    objs: &mut KernelObjects,
    procs: &mut ProcessTable,
    pid: ProcessId,
    cap: CapSlotStorage,
) -> (r: Result<u32, CapError>)
    requires
        old(procs).wf(),
    ensures
        final(procs).wf(),
        final(objs).same_objects(old(objs)),
        r is Ok <==> (validate_spec(old(objs), cap) is Ok && old(procs).has(pid) && has_free_slot(
            old(procs),
            pid,
        )),
        validate_spec(old(objs), cap) is Err ==> r == Err::<u32, CapError>(
            validate_spec(old(objs), cap)->Err_0,
        ),
        validate_spec(old(objs), cap) is Ok && !old(procs).has(pid) ==> r == Err::<u32, CapError>(
            CapError::NotFound,
        ),
        validate_spec(old(objs), cap) is Ok && old(procs).has(pid) && !has_free_slot(old(procs), pid)
            ==> r == Err::<u32, CapError>(CapError::NoSlot),
        r is Err ==> final(procs).procs@ == old(procs).procs@ && final(procs).smoke_pid == old(procs).smoke_pid && final(procs).current_pid == old(procs).current_pid && final(objs).same_counters(
            old(objs),
        ),
        r is Ok ==> stored_at(old(procs), final(procs), pid, r->Ok_0 as int, cap)
            && final(objs).cap_creates == bumped(old(objs).cap_creates)
            && final(objs).amplification_denied == old(objs).amplification_denied
            && final(objs).cap_closes == old(objs).cap_closes
            && final(objs).cap_transfers == old(objs).cap_transfers
            && final(objs).cap_delegates == old(objs).cap_delegates,
        caps_consistent(old(objs), old(procs)) ==> caps_consistent(final(objs), final(procs)),
{
    validate_cap_slot(objs, cap.object_id, cap.kind, cap.generation, cap.rights)?;
    if !(pid.0 >= 1 && pid.0 <= procs.procs.len() as u64) {
        return Err(CapError::NotFound);
    }
    let idx = (pid.0 - 1) as usize;
    let mut i: usize = 0;
    while i < MAX_CAPS
        invariant
            procs.wf(),
            *procs == *old(procs),
            *objs == *old(objs),
            validate_spec(old(objs), cap) is Ok,
            idx == pid.0 - 1,
            procs.has(pid),
            i <= MAX_CAPS,
            forall|j: int| 0 <= j < i ==> (#[trigger] procs.caps_of(pid)[j]) is Some,
        decreases MAX_CAPS - i,
    {
        if procs.procs[idx].caps[i].is_none() {
            let ghost before = *procs;
            let mut p = procs.procs.remove(idx);
            p.caps.set(i, Some(cap));
            procs.procs.insert(idx, p);
            objs.cap_creates = bump(objs.cap_creates);
            assert(procs.procs@ =~= before.procs@.update(idx as int, procs.procs@[idx as int]));
            proof {
                if caps_consistent(old(objs), old(procs)) {
                    lemma_slot_change_keeps(old(objs), old(procs), procs, pid, i as int, Some(cap));
                    lemma_advance_keeps(old(objs), objs, procs);
                }
            }
            return Ok(i as u32);
        }
        i += 1;
    }
    Err(CapError::NoSlot)
}

pub fn close_cap_for_process(
    objs: &mut KernelObjects,
    procs: &mut ProcessTable,
    pid: ProcessId,
    slot: u32,
) -> (r: Result<(), CapError>)
    requires
        old(procs).wf(),
    ensures
        final(procs).wf(),
        final(objs).same_objects(old(objs)),
        r is Ok <==> (old(procs).has(pid) && slot < MAX_CAPS && old(procs).caps_of(
            pid,
        )[slot as int] is Some),
        r is Err ==> r == Err::<(), CapError>(CapError::NotFound) && final(procs).procs@ == old(procs).procs@ && final(objs).same_counters(old(objs)),
        r is Ok ==> final(procs).caps_of(pid) == old(procs).caps_of(pid).update(slot as int, None)
            && final(procs).proc_at(pid).mode == old(procs).proc_at(pid).mode
            && final(procs).proc_at(pid).owner == old(procs).proc_at(pid).owner
            && final(procs).fds_of(pid) == old(procs).fds_of(pid)
            && final(procs).others_unchanged(old(procs), pid)
            && final(objs).cap_closes == bumped(old(objs).cap_closes)
            && final(objs).cap_creates == old(objs).cap_creates
            && final(objs).amplification_denied == old(objs).amplification_denied
            && final(objs).cap_transfers == old(objs).cap_transfers
            && final(objs).cap_delegates == old(objs).cap_delegates,
        final(procs).smoke_pid == old(procs).smoke_pid,
        final(procs).current_pid == old(procs).current_pid,
        caps_consistent(old(objs), old(procs)) ==> caps_consistent(final(objs), final(procs)),
{
    if !(pid.0 >= 1 && pid.0 <= procs.procs.len() as u64) {
        return Err(CapError::NotFound);
    }
    let idx = (pid.0 - 1) as usize;
    let i = slot as usize;
    if i >= MAX_CAPS {
        return Err(CapError::NotFound);
    }
    if procs.procs[idx].caps[i].is_none() {
        return Err(CapError::NotFound);
    }
    let ghost before = *procs;
    let mut p = procs.procs.remove(idx);
    p.caps.set(i, None);
    procs.procs.insert(idx, p);
    objs.cap_closes = bump(objs.cap_closes);
    assert(procs.procs@ =~= before.procs@.update(idx as int, procs.procs@[idx as int]));
    proof {
        if caps_consistent(old(objs), old(procs)) {
            lemma_slot_change_keeps(old(objs), old(procs), procs, pid, i as int, None);
            lemma_advance_keeps(old(objs), objs, procs);
        }
    }
    Ok(())
}

pub open spec fn spec_get_cap(procs: &ProcessTable, pid: ProcessId, slot: u32) -> Option<
    CapSlotStorage,
> {
    if procs.has(pid) && slot < MAX_CAPS {
        procs.caps_of(pid)[slot as int]
    } else {
        None
    }
}

pub fn get_cap(procs: &ProcessTable, pid: ProcessId, slot: u32) -> (r: Option<CapSlotStorage>)
    requires
        procs.wf(),
    ensures
        r == spec_get_cap(procs, pid, slot),
{
    if pid.0 >= 1 && pid.0 <= procs.procs.len() as u64 && (slot as usize) < MAX_CAPS {
        procs.procs[(pid.0 - 1) as usize].caps[slot as usize]
    } else {
        None
    }
}

/// The cap a mint of `rights` on `object_id` would store.
pub open spec fn minted_cap(objs: &KernelObjects, object_id: ObjectId, rights: Rights) -> CapSlotStorage {
    CapSlotStorage {
        object_id,
        kind: objs.record(object_id).kind,
        generation: objs.record(object_id).generation,
        rights,
    }
}

/// Mint without the ambient-authority check (bootstrap and broker grants).
pub(crate) fn mint_cap_for_process_bootstrap(
    objs: &mut KernelObjects,
    procs: &mut ProcessTable,
    pid: ProcessId,
    object_id: ObjectId,
    rights: Rights,
) -> (r: Result<u32, CapError>)
    requires
        old(procs).wf(),
    ensures
        final(procs).wf(),
        final(objs).same_objects(old(objs)),
        !old(objs).has_object(object_id) ==> r == Err::<u32, CapError>(CapError::NotFound)
            && final(procs).procs@ == old(procs).procs@ && final(objs).same_counters(old(objs)),
        old(objs).has_object(object_id) && !rights_contain(old(objs).record(object_id).max_rights, rights)
            ==> r == Err::<u32, CapError>(CapError::AmplificationDenied)
            && final(procs).procs@ == old(procs).procs@
            && final(objs).amplification_denied == bumped(old(objs).amplification_denied)
            && final(objs).cap_creates == old(objs).cap_creates,
        old(objs).has_object(object_id) && rights_contain(old(objs).record(object_id).max_rights, rights)
            ==> {
            &&& r is Ok <==> (old(procs).has(pid) && has_free_slot(old(procs), pid))
            &&& r is Err ==> r == Err::<u32, CapError>(CapError::NoSlot)
                && final(procs).procs@ == old(procs).procs@ && final(objs).same_counters(old(objs))
            &&& r is Ok ==> stored_at(old(procs), final(procs), pid, r->Ok_0 as int, minted_cap(old(objs), object_id, rights))
                && final(objs).cap_creates == bumped(old(objs).cap_creates)
                && final(objs).amplification_denied == old(objs).amplification_denied
        },
        final(objs).cap_closes == old(objs).cap_closes,
        final(objs).cap_transfers == old(objs).cap_transfers,
        final(objs).cap_delegates == old(objs).cap_delegates,
        final(procs).smoke_pid == old(procs).smoke_pid,
        final(procs).current_pid == old(procs).current_pid,
        caps_consistent(old(objs), old(procs)) ==> caps_consistent(final(objs), final(procs)),
{
    let rec = match objs.registry.get(&object_id.0) {
        Some(rec) => *rec,
        None => return Err(CapError::NotFound),
    };
    if !rec.max_rights.contains(rights) {
        objs.amplification_denied = bump(objs.amplification_denied);
        return Err(CapError::AmplificationDenied);
    }
    let slot_storage = CapSlotStorage {
        object_id,
        kind: rec.kind,
        generation: rec.generation,
        rights,
    };
    match alloc_cap_slot(objs, procs, pid, slot_storage) {
        Ok(slot) => Ok(slot),
        Err(_) => Err(CapError::NoSlot),
    }
}

/// Mint a cap on `object_id` carrying `rights` into the first free slot of
/// `pid`; native processes without any cap are denied (no ambient
/// authority), and rights beyond the object's maximum are refused.
pub fn mint_cap_for_process(
    objs: &mut KernelObjects,
    procs: &mut ProcessTable,
    pid: ProcessId,
    object_id: ObjectId,
    rights: Rights,
) -> (r: Result<u32, CapError>)
    requires
        old(procs).wf(),
    ensures
        final(procs).wf(),
        final(objs).same_objects(old(objs)),
        !ambient_allows(old(procs), pid) ==> r == Err::<u32, CapError>(CapError::AmbientDenied)
            && final(procs).procs@ == old(procs).procs@ && final(objs).same_counters(old(objs)),
        ambient_allows(old(procs), pid) && !old(objs).has_object(object_id) ==> r == Err::<
            u32,
            CapError,
        >(CapError::NotFound) && final(procs).procs@ == old(procs).procs@
            && final(objs).same_counters(old(objs)),
        ambient_allows(old(procs), pid) && old(objs).has_object(object_id) && !rights_contain(
            old(objs).record(object_id).max_rights,
            rights,
        ) ==> r == Err::<u32, CapError>(CapError::AmplificationDenied)
            && final(procs).procs@ == old(procs).procs@
            && final(objs).amplification_denied == bumped(old(objs).amplification_denied)
            && final(objs).cap_creates == old(objs).cap_creates,
        ambient_allows(old(procs), pid) && old(objs).has_object(object_id) && rights_contain(
            old(objs).record(object_id).max_rights,
            rights,
        ) ==> {
            &&& r is Ok <==> (old(procs).has(pid) && has_free_slot(old(procs), pid))
            &&& r is Err ==> r == Err::<u32, CapError>(CapError::NoSlot)
                && final(procs).procs@ == old(procs).procs@ && final(objs).same_counters(old(objs))
            &&& r is Ok ==> stored_at(
                old(procs),
                final(procs),
                pid,
                r->Ok_0 as int,
                minted_cap(old(objs), object_id, rights),
            ) && final(objs).cap_creates == bumped(old(objs).cap_creates)
                && final(objs).amplification_denied == old(objs).amplification_denied
        },
        final(objs).cap_closes == old(objs).cap_closes,
        final(objs).cap_transfers == old(objs).cap_transfers,
        final(objs).cap_delegates == old(objs).cap_delegates,
        final(procs).smoke_pid == old(procs).smoke_pid,
        final(procs).current_pid == old(procs).current_pid,
        caps_consistent(old(objs), old(procs)) ==> caps_consistent(final(objs), final(procs)),
{
    if procs.process_mode(pid) == ProcessMode::Native && cap_count_for_process(procs, pid) == 0 {
        return Err(CapError::AmbientDenied);
    }
    mint_cap_for_process_bootstrap(objs, procs, pid, object_id, rights)
}

/// Derive a cap from the one in `parent_slot` with `child_rights`, which
/// must be a subset of the parent's rights, and the parent must carry
/// `DELEGATE`.
pub fn cap_delegate(
    objs: &mut KernelObjects,
    procs: &mut ProcessTable,
    pid: ProcessId,
    parent_slot: u32,
    child_rights: Rights,
) -> (r: Result<u32, CapError>)
    requires
        old(procs).wf(),
    ensures
        final(procs).wf(),
        final(objs).same_objects(old(objs)),
        spec_get_cap(old(procs), pid, parent_slot) is None ==> r == Err::<u32, CapError>(
            CapError::NotFound,
        ) && final(procs).procs@ == old(procs).procs@ && final(objs).same_counters(old(objs)),
        spec_get_cap(old(procs), pid, parent_slot) matches Some(parent) ==> {
            let child = CapSlotStorage { rights: child_rights, ..parent };
            &&& !(rights_contain(parent.rights, child_rights) && rights_contain(
                parent.rights,
                Rights(Rights::DELEGATE),
            )) ==> r == Err::<u32, CapError>(CapError::AmplificationDenied)
                && final(procs).procs@ == old(procs).procs@
                && final(objs).amplification_denied == bumped(old(objs).amplification_denied)
                && final(objs).cap_delegates == old(objs).cap_delegates
            &&& rights_contain(parent.rights, child_rights) && rights_contain(
                parent.rights,
                Rights(Rights::DELEGATE),
            ) ==> {
                &&& r is Ok <==> (validate_spec(old(objs), child) is Ok && has_free_slot(
                    old(procs),
                    pid,
                ))
                &&& r is Err ==> final(procs).procs@ == old(procs).procs@ && final(objs).same_counters(old(objs))
                &&& r is Ok ==> stored_at(old(procs), final(procs), pid, r->Ok_0 as int, child)
                    && final(objs).cap_delegates == bumped(old(objs).cap_delegates)
                    && final(objs).amplification_denied == old(objs).amplification_denied
                    && final(objs).cap_creates == bumped(old(objs).cap_creates)
            }
        },
        final(procs).smoke_pid == old(procs).smoke_pid,
        final(procs).current_pid == old(procs).current_pid,
        caps_consistent(old(objs), old(procs)) ==> caps_consistent(final(objs), final(procs)),
{
    let parent = match get_cap(procs, pid, parent_slot) {
        Some(p) => p,
        None => return Err(CapError::NotFound),
    };
    if !parent.rights.contains(child_rights) {
        objs.amplification_denied = bump(objs.amplification_denied);
        return Err(CapError::AmplificationDenied);
    }
    if !parent.rights.contains(Rights(Rights::DELEGATE)) {
        objs.amplification_denied = bump(objs.amplification_denied);
        return Err(CapError::AmplificationDenied);
    }
    let child = CapSlotStorage {
        object_id: parent.object_id,
        kind: parent.kind,
        generation: parent.generation,
        rights: child_rights,
    };
    let slot = alloc_cap_slot(objs, procs, pid, child)?;
    objs.cap_delegates = bump(objs.cap_delegates);
    Ok(slot)
}

/// Delegation never amplifies: a delegated cap's rights are contained in
/// the parent's rights and the parent held `DELEGATE`.
pub proof fn lemma_delegation_monotone(parent: Rights, child: Rights, grandchild: Rights)
    requires
        rights_contain(parent, child),
        rights_contain(child, grandchild),
    ensures
        rights_contain(parent, grandchild),
{
    lemma_rights_order(parent, child, grandchild);
}

/// Emptying an occupied slot takes one off the number of occupied slots.
pub proof fn lemma_count_some_clear<T>(s: Seq<Option<T>>, i: int)
    requires
        0 <= i < s.len(),
        s[i] is Some,
    ensures
        count_some(s.update(i, None)) + 1 == count_some(s),
{
    lemma_count_some_fill(s.update(i, None), i, s[i]->Some_0);
    assert(s.update(i, None).update(i, Some(s[i]->Some_0)) =~= s);
}

/// A move between two processes: slot `from_slot` of `from` is emptied,
/// `cap` lands in slot `k` of `to`, the first one that was free, and every
/// other slot of every process is kept.
pub open spec fn moved_between(
    before: &ProcessTable,
    after: &ProcessTable,
    from: ProcessId,
    from_slot: u32,
    to: ProcessId,
    k: int,
    cap: CapSlotStorage,
) -> bool {
    &&& 0 <= k < MAX_CAPS
    &&& before.caps_of(to)[k] is None
    &&& forall|j: int| 0 <= j < k ==> (#[trigger] before.caps_of(to)[j]) is Some
    &&& after.caps_of(to) == before.caps_of(to).update(k, Some(cap))
    &&& after.caps_of(from) == before.caps_of(from).update(from_slot as int, None)
    &&& after.procs@.len() == before.procs@.len()
    &&& forall|i: int| 0 <= i < after.procs@.len() && i != from.0 - 1 && i != to.0 - 1
        ==> #[trigger] after.procs@[i] == before.procs@[i]
    &&& spec_cap_count(after, from) + 1 == spec_cap_count(before, from)
    &&& spec_cap_count(after, to) == spec_cap_count(before, to) + 1
}

/// Move the cap in `from_slot` of `from_pid` into the first free slot of
/// `to_pid`.
pub fn cap_transfer_move(
    objs: &mut KernelObjects,
    procs: &mut ProcessTable,
    from_pid: ProcessId,
    from_slot: u32,
    to_pid: ProcessId,
) -> (r: Result<u32, CapError>)
    requires
        old(procs).wf(),
    ensures
        final(procs).wf(),
        final(objs).same_objects(old(objs)),
        spec_get_cap(old(procs), from_pid, from_slot) is None ==> r == Err::<u32, CapError>(
            CapError::NotFound,
        ) && final(procs).procs@ == old(procs).procs@,
        spec_get_cap(old(procs), from_pid, from_slot) matches Some(c) ==> (from_pid != to_pid ==>
        (r is Ok <==> (validate_spec(old(objs), c) is Ok && old(procs).has(to_pid) && has_free_slot(
            old(procs),
            to_pid,
        )))),
        r is Ok ==> spec_get_cap(old(procs), from_pid, from_slot) is Some && (spec_get_cap(
            final(procs),
            from_pid,
            from_slot,
        ) is None || (to_pid == from_pid && r->Ok_0 == from_slot)) && spec_get_cap(final(procs), to_pid, r->Ok_0) == spec_get_cap(
            old(procs),
            from_pid,
            from_slot,
        ) && final(objs).cap_transfers == bumped(old(objs).cap_transfers),
        r is Ok && from_pid != to_pid ==> moved_between(
            old(procs),
            final(procs),
            from_pid,
            from_slot,
            to_pid,
            r->Ok_0 as int,
            spec_get_cap(old(procs), from_pid, from_slot)->Some_0,
        ),
        final(procs).smoke_pid == old(procs).smoke_pid,
        final(procs).current_pid == old(procs).current_pid,
        caps_consistent(old(objs), old(procs)) ==> caps_consistent(final(objs), final(procs)),
{
    let cap = match get_cap(procs, from_pid, from_slot) {
        Some(c) => c,
        None => return Err(CapError::NotFound),
    };
    close_cap_for_process(objs, procs, from_pid, from_slot)?;
    let ghost mid = *procs;
    proof {
        if from_pid != to_pid && old(procs).has(to_pid) {
            assert(mid.procs@[to_pid.0 - 1] == old(procs).procs@[to_pid.0 - 1]);
            assert(mid.caps_of(to_pid) == old(procs).caps_of(to_pid));
        }
    }
    let to_slot = alloc_cap_slot(objs, procs, to_pid, cap)?;
    proof {
        if to_pid != from_pid {
            assert(procs.procs@[from_pid.0 - 1] == mid.procs@[from_pid.0 - 1]);
            assert(mid.caps_of(to_pid) == old(procs).caps_of(to_pid));
            lemma_count_some_fill(mid.caps_of(to_pid), to_slot as int, cap);
            lemma_count_some_clear(old(procs).caps_of(from_pid), from_slot as int);
            assert forall|i: int| 0 <= i < procs.procs@.len() && i != from_pid.0 - 1 && i != to_pid.0 - 1
                implies #[trigger] procs.procs@[i] == old(procs).procs@[i] by {
                assert(procs.procs@[i] == mid.procs@[i]);
                assert(mid.procs@[i] == old(procs).procs@[i]);
            }
        }
    }
    objs.cap_transfers = bump(objs.cap_transfers);
    Ok(to_slot)
}

pub fn create_storage_grant(objs: &mut KernelObjects, fsnode_local_id: u32, rights: Rights) -> (r:
    Result<u32, CapError>)
    ensures
        r == Ok::<u32, CapError>(old(objs).next_grant_id),
        final(objs).next_grant_id == (if old(objs).next_grant_id == u32::MAX {
            0
        } else {
            (old(objs).next_grant_id + 1) as u32
        }),
        final(objs).grants@ == old(objs).grants@.push(
            StorageGrant {
                grant_id: old(objs).next_grant_id,
                object_id: ObjectId(old(objs).next_object_id),
                rights,
            },
        ),
        final(objs).next_object_id == bumped(old(objs).next_object_id),
        final(objs).registry@ == old(objs).registry@.insert(
            old(objs).next_object_id,
            KernelObjectRecord {
                kind: ObjectKind::FsNode,
                generation: Generation(1),
                max_rights: rights,
                fsnode_local_id: Some(fsnode_local_id),
            },
        ),
        final(objs).same_counters(old(objs)),
{
    let object_id = register_fsnode_object(objs, fsnode_local_id, rights);
    let grant_id = objs.next_grant_id;
    objs.next_grant_id = objs.next_grant_id.wrapping_add(1);
    objs.grants.push(StorageGrant { grant_id, object_id, rights });
    Ok(grant_id)
}

/// The first grant with `grant_id`, if any.
pub fn storage_grant_by_id(objs: &KernelObjects, grant_id: u32) -> (r: Option<StorageGrant>)
    ensures
        r is None ==> forall|i: int| 0 <= i < objs.grants@.len() ==> (#[trigger] objs.grants@[i]).grant_id != grant_id,
        r is Some ==> exists|i: int|
            0 <= i < objs.grants@.len() && objs.grants@[i] == r->Some_0 && r->Some_0.grant_id
                == grant_id && forall|j: int| 0 <= j < i ==> (#[trigger] objs.grants@[j]).grant_id != grant_id,
{
    let mut i: usize = 0;
    while i < objs.grants.len()
        invariant
            i <= objs.grants@.len(),
            forall|j: int| 0 <= j < i ==> (#[trigger] objs.grants@[j]).grant_id != grant_id,
        decreases objs.grants@.len() - i,
    {
        if objs.grants[i].grant_id == grant_id {
            return Some(objs.grants[i]);
        }
        i += 1;
    }
    None
}

/// Mint the cap a storage grant names into `pid` (broker path: no ambient
/// check).
pub fn mint_cap_from_grant(
    objs: &mut KernelObjects,
    procs: &mut ProcessTable,
    pid: ProcessId,
    grant_id: u32,
) -> (r: Result<u32, CapError>)
    requires
        old(procs).wf(),
    ensures
        final(procs).wf(),
        final(objs).same_objects(old(objs)),
        (forall|i: int| 0 <= i < old(objs).grants@.len() ==> (#[trigger] old(objs).grants@[i]).grant_id != grant_id)
            ==> r == Err::<u32, CapError>(CapError::NotFound) && final(procs).procs@ == old(procs).procs@,
        forall|i: int|
            0 <= i < old(objs).grants@.len() && (#[trigger] old(objs).grants@[i]).grant_id == grant_id
                && (forall|j: int| 0 <= j < i ==> (#[trigger] old(objs).grants@[j]).grant_id != grant_id)
                ==> (r is Ok <==> (old(objs).has_object(old(objs).grants@[i].object_id)
                && rights_contain(old(objs).record(old(objs).grants@[i].object_id).max_rights, old(objs).grants@[i].rights)
                && old(procs).has(pid) && has_free_slot(old(procs), pid))),
        r is Ok ==> exists|i: int|
            0 <= i < old(objs).grants@.len() && (#[trigger] old(objs).grants@[i]).grant_id == grant_id
                && stored_at(
                old(procs),
                final(procs),
                pid,
                r->Ok_0 as int,
                minted_cap(old(objs), old(objs).grants@[i].object_id, old(objs).grants@[i].rights),
            ),
        final(procs).smoke_pid == old(procs).smoke_pid,
        final(procs).current_pid == old(procs).current_pid,
        caps_consistent(old(objs), old(procs)) ==> caps_consistent(final(objs), final(procs)),
{
    let grant = match storage_grant_by_id(objs, grant_id) {
        Some(g) => g,
        None => return Err(CapError::NotFound),
    };
    mint_cap_for_process_bootstrap(objs, procs, pid, grant.object_id, grant.rights)
}

/// The smoke process: the registered one, or a freshly created one.
pub fn ensure_smoke_process(procs: &mut ProcessTable) -> (r: Option<ProcessId>)
    requires
        old(procs).wf(),
    ensures
        final(procs).wf(),
        final(procs).smoke_pid == old(procs).smoke_pid,
        final(procs).current_pid == old(procs).current_pid,
        old(procs).smoke_pid is Some ==> r == old(procs).smoke_pid && final(procs).procs@ == old(procs).procs@,
        old(procs).smoke_pid is None && old(procs).procs@.len() >= crate::process::MAX_PROCESSES
            ==> r is None && final(procs).procs@ == old(procs).procs@,
        old(procs).smoke_pid is None && old(procs).procs@.len() < crate::process::MAX_PROCESSES
            ==> r == Some(ProcessId((old(procs).procs@.len() + 1) as u64)) && final(procs).procs@.len()
            == old(procs).procs@.len() + 1 && final(procs).mode_of(r->Some_0) == ProcessMode::Compat
            && (forall|k: int| 0 <= k < MAX_CAPS ==> (#[trigger] final(procs).caps_of(r->Some_0)[k]) is None)
            && (forall|k: int| 0 <= k < crate::fd_table::MAX_FDS ==> (#[trigger] final(procs).fds_of(r->Some_0)[k]) is None)
            && final(procs).proc_at(r->Some_0).owner.role == crate::security::Role::Kernel
            && (forall|i: int| 0 <= i < old(procs).procs@.len() ==> #[trigger] final(procs).procs@[i] == old(procs).procs@[i]),
{
    if let Some(pid) = procs.smoke_process_id() {
        return Some(pid);
    }
    procs.create_process(Credentials::kernel())
}

/// A process whose cap slots are all empty has three free slots.
pub proof fn lemma_empty_caps_free_slots(procs: &ProcessTable, pid: ProcessId)
    requires
        forall|k: int| 0 <= k < MAX_CAPS ==> (#[trigger] procs.caps_of(pid)[k]) is None,
    ensures
        three_free_slots(procs, pid),
        two_free_slots(procs, pid),
        has_free_slot(procs, pid),
{
    assert(procs.caps_of(pid)[0] is None && procs.caps_of(pid)[1] is None && procs.caps_of(pid)[2] is None);
}

/// A table in which the smoke process is still to be created.
pub open spec fn fresh_smoke_table(procs: &ProcessTable) -> bool {
    procs.smoke_pid is None && procs.procs@.len() < crate::process::MAX_PROCESSES
}

/// The smoke process can be given a cap: the registered one exists, passes
/// the ambient-authority check and has a free slot, or there is room to
/// create it.
pub open spec fn smoke_mint_ready(procs: &ProcessTable) -> bool {
    match procs.smoke_pid {
        Some(p) => procs.has(p) && ambient_allows(procs, p) && has_free_slot(procs, p),
        None => procs.procs@.len() < crate::process::MAX_PROCESSES,
    }
}

/// Kernel-object smoke: a freshly minted cap carries the object's kind and
/// initial generation.
pub fn phase111_kernel_object_smoke(objs: &mut KernelObjects, procs: &mut ProcessTable) -> (r: bool)
    requires
        old(procs).wf(),
    ensures
        final(procs).wf(),
        fresh_smoke_table(old(procs)) ==> r,
        r == smoke_mint_ready(old(procs)),
{
    let pid = match ensure_smoke_process(procs) {
        Some(p) => p,
        None => return false,
    };
    proof {
        if old(procs).smoke_pid is None && old(procs).procs@.len() < crate::process::MAX_PROCESSES {
            assert(procs.caps_of(pid)[0] is None);
        }
    }
    procs.set_smoke_process_id(Some(pid));
    let object_id = register_object(objs, ObjectKind::MemoryRegion, Rights::all_for_smoke());
    let gen = match object_generation(objs, object_id) {
        Some(g) => g.0 == INITIAL_GENERATION,
        None => false,
    };
    assert((31u32 & 3u32) == 3u32) by (bit_vector);
    proof {
        if fresh_smoke_table(old(procs)) {
            assert(procs.caps_of(pid)[0] is None);
        }
    }
    let slot = mint_cap_for_process(objs, procs, pid, object_id, Rights::read_write());
    let lookup = match slot {
        Ok(s) => match get_cap(procs, pid, s) {
            Some(c) => c.generation.0 == INITIAL_GENERATION && c.kind == ObjectKind::MemoryRegion,
            None => false,
        },
        Err(_) => false,
    };
    gen && lookup
}

/// Rights smoke: delegation of a subset succeeds and amplification is
/// refused and counted.
pub fn phase113_rights_smoke(objs: &mut KernelObjects, procs: &mut ProcessTable) -> (r: bool)
    requires
        old(procs).wf(),
    ensures
        final(procs).wf(),
        r ==> final(objs).amplification_denied != old(objs).amplification_denied,
        fresh_smoke_table(old(procs)) && old(objs).amplification_denied < u64::MAX ==> r,
{
    let pid = match ensure_smoke_process(procs) {
        Some(p) => p,
        None => return false,
    };
    let oid = register_object(objs, ObjectKind::FsNode, Rights::all_for_smoke());
    let parent_rights = Rights(Rights::READ | Rights::DELEGATE);
    assert((31u32 & (1u32 | 8u32)) == (1u32 | 8u32) && ((1u32 | 8u32) & 1u32) == 1u32 && ((1u32 | 8u32) & 8u32)
        == 8u32 && ((1u32 | 8u32) & 3u32) != 3u32 && (31u32 & 1u32) == 1u32) by (bit_vector);
    proof {
        if fresh_smoke_table(old(procs)) {
            assert(procs.caps_of(pid)[0] is None);
            assert(procs.caps_of(pid)[1] is None);
        }
    }
    let parent = match mint_cap_for_process(objs, procs, pid, oid, parent_rights) {
        Ok(p) => p,
        Err(_) => return false,
    };
    proof {
        if fresh_smoke_table(old(procs)) {
            assert(parent == 0);
            assert(procs.caps_of(pid)[1] is None);
        }
    }
    let child_ok = cap_delegate(objs, procs, pid, parent, Rights(Rights::READ)).is_ok();
    let amp_before = amplification_denied_count(objs);
    let amp_fail = cap_delegate(objs, procs, pid, parent, Rights::read_write()).is_err();
    let amp_after = amplification_denied_count(objs) > amp_before;
    child_ok && amp_fail && amp_after
}

/// Storage-grant smoke: a grant mints an `FsNode` cap with the granted
/// rights into a native process.
pub fn phase114_storage_grant_smoke(objs: &mut KernelObjects, procs: &mut ProcessTable) -> (r: bool)
    requires
        old(procs).wf(),
    ensures
        final(procs).wf(),
        fresh_smoke_table(old(procs)) && (forall|i: int|
            0 <= i < old(objs).grants@.len() ==> (#[trigger] old(objs).grants@[i]).grant_id != old(objs).next_grant_id) ==> r,
        (forall|i: int| 0 <= i < old(objs).grants@.len() ==> (#[trigger] old(objs).grants@[i]).grant_id
            != old(objs).next_grant_id) ==> r == (match old(procs).smoke_pid {
            Some(p) => old(procs).has(p) && has_free_slot(old(procs), p),
            None => old(procs).procs@.len() < crate::process::MAX_PROCESSES,
        }),
{
    let pid = match ensure_smoke_process(procs) {
        Some(p) => p,
        None => return false,
    };
    proof {
        if old(procs).smoke_pid is None && old(procs).procs@.len() < crate::process::MAX_PROCESSES {
            assert(procs.caps_of(pid)[0] is None);
        }
    }
    procs.set_process_mode(pid, ProcessMode::Native);
    let grant = create_storage_grant(objs, 42, Rights::read_write());
    assert((3u32 & 3u32) == 3u32) by (bit_vector);
    proof {
        if fresh_smoke_table(old(procs)) {
            assert(procs.caps_of(pid)[0] is None);
            assert(objs.grants@[objs.grants@.len() - 1].grant_id == grant->Ok_0);
        }
    }
    let minted = match grant {
        Ok(g) => mint_cap_from_grant(objs, procs, pid, g),
        Err(e) => Err(e),
    };
    let no_path = match minted {
        Ok(s) => match get_cap(procs, pid, s) {
            Some(c) => c.kind == ObjectKind::FsNode && c.rights.contains(Rights::read_write()),
            None => false,
        },
        Err(_) => false,
    };
    procs.set_process_mode(pid, ProcessMode::Compat);
    no_path
}

/// Cap lifecycle smoke: a cap moved between processes leaves the sender
/// and can be closed by the receiver.
pub fn phase112_cap_lifecycle_smoke(objs: &mut KernelObjects, procs: &mut ProcessTable) -> (r: bool)
    requires
        old(procs).wf(),
    ensures
        final(procs).wf(),
        old(procs).smoke_pid is None && old(procs).procs@.len() + 2 <= crate::process::MAX_PROCESSES
            ==> r,
        old(procs).smoke_pid is None || old(procs).has(old(procs).smoke_pid->Some_0) ==> r == (smoke_mint_ready(
            old(procs),
        ) && old(procs).procs@.len() + (if old(procs).smoke_pid is None {
            2int
        } else {
            1int
        }) <= crate::process::MAX_PROCESSES),
{
    let ghost ready = smoke_mint_ready(old(procs)) && old(procs).procs@.len() + (if old(procs).smoke_pid is None {
        2int
    } else {
        1int
    }) <= crate::process::MAX_PROCESSES;
    let pid_a = match ensure_smoke_process(procs) {
        Some(p) => p,
        None => return false,
    };
    let ghost mid = *procs;
    proof {
        if old(procs).smoke_pid is None && old(procs).procs@.len() < crate::process::MAX_PROCESSES {
            assert(mid.caps_of(pid_a)[0] is None);
        }
    }
    let pid_b = match procs.create_process(Credentials::kernel()) {
        Some(p) => p,
        None => return false,
    };
    let oid = register_object(objs, ObjectKind::FsNode, Rights::all_for_smoke());
    assert((31u32 & 3u32) == 3u32) by (bit_vector);
    proof {
        if ready {
            assert(procs.procs@[pid_a.0 - 1] == mid.procs@[pid_a.0 - 1]);
        }
    }
    let ghost pm = *procs;
    let slot_a = match mint_cap_for_process(objs, procs, pid_a, oid, Rights::read_write()) {
        Ok(s) => s,
        Err(_) => return false,
    };
    proof {
        if old(procs).smoke_pid is Some && old(procs).has(old(procs).smoke_pid->Some_0) {
            assert(pm.procs@[pid_a.0 - 1] == mid.procs@[pid_a.0 - 1]);
            assert(pm.caps_of(pid_a) == old(procs).caps_of(pid_a));
            assert(has_free_slot(old(procs), pid_a));
            assert(pid_a != pid_b);
        }
    }
    proof {
        if ready {
            assert(procs.caps_of(pid_b)[0] is None);
            assert(pid_a != pid_b);
            assert(spec_get_cap(procs, pid_a, slot_a) == Some(minted_cap(objs, oid, Rights(3))));
            assert(validate_spec(objs, minted_cap(objs, oid, Rights(3))) is Ok);
        }
    }
    let moved = crate::native_syscall::invoke_native(
        objs,
        procs,
        crate::native_syscall::NativeSyscallId::CapTransfer.as_u64(),
        pid_a,
        slot_a as u64,
        pid_b.as_u64(),
        0,
    );
    proof {
        if ready {
            assert(moved is Ok);
        }
    }
    let sender_empty = get_cap(procs, pid_a, slot_a).is_none();
    let receiver = match moved {
        Ok(s) => get_cap(procs, pid_b, s as u32).is_some(),
        Err(_) => false,
    };
    let closed = match moved {
        Ok(s) => crate::native_syscall::invoke_native(
            objs,
            procs,
            crate::native_syscall::NativeSyscallId::CapClose.as_u64(),
            pid_b,
            s,
            0,
            0,
        ).is_ok(),
        Err(_) => false,
    };
    proof {
        if ready && (old(procs).smoke_pid is None || old(procs).has(old(procs).smoke_pid->Some_0)) {
            assert(sender_empty);
            assert(receiver);
            assert(closed);
        }
    }
    sender_empty && receiver && closed
}

} // verus!
