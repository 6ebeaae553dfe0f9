//! Block-device manager: registered devices with in-memory media, one of
//! them active for sector reads and writes.
use vstd::prelude::*;

use crate::counter::{bump, bumped};
use crate::device::{register_device, DeviceKind, DeviceRegistry, DeviceState};
use crate::storage::{DEFAULT_SECTOR_COUNT, SECTOR_SIZE};

verus! {

#[derive(Debug, Clone, Copy, PartialEq, Eq, Structural)]
pub struct BlockDeviceId(pub u64);

impl BlockDeviceId {
    pub fn from_raw(raw: u64) -> (r: Self)
        ensures
            r.0 == raw,
    {
        Self(raw)
    }

    pub fn as_u64(self) -> (r: u64)
        ensures
            r == self.0,
    {
        self.0
    }
}

#[derive(Debug, Clone, Copy, PartialEq, Eq, Structural)]
pub enum BlockBackendKind {
    MemoryFallback,
    SimulatedQemu,
    VirtioBlk,
}

pub struct BlockDeviceInfo {
    pub id: BlockDeviceId,
    pub name: String,
    pub backend: BlockBackendKind,
    pub sector_size: usize,
    pub sector_count: usize,
    pub read_only: bool,
    pub driver_backed: bool,
}

#[derive(Debug, Clone, Copy, PartialEq, Eq, Structural)]
pub enum BlockError {
    NotFound,
    NoActiveDevice,
    OutOfRange,
    ReadOnly,
}

pub open spec fn is_zero_sector(s: [u8; 512]) -> bool {
    forall|j: int| 0 <= j < 512 ==> #[trigger] s@[j] == 0u8
}

pub struct BlockDeviceEntry {
    pub info: BlockDeviceInfo,
    pub media: Vec<[u8; 512]>,
}

/// The devices in registration order, the next id, and the primary and
/// active devices.
pub struct BlockManager {
    pub next_id: u64,
    pub active: Option<BlockDeviceId>,
    pub primary: Option<BlockDeviceId>,
    pub devices: Vec<BlockDeviceEntry>,
}

pub open spec fn same_block_info(a: BlockDeviceInfo, b: BlockDeviceInfo) -> bool {
    &&& a.id == b.id
    &&& a.name@ == b.name@
    &&& a.backend == b.backend
    &&& a.sector_size == b.sector_size
    &&& a.sector_count == b.sector_count
    &&& a.read_only == b.read_only
    &&& a.driver_backed == b.driver_backed
}

fn copy_block_info(info: &BlockDeviceInfo) -> (r: BlockDeviceInfo)
    ensures
        same_block_info(r, *info),
{
    BlockDeviceInfo {
        id: info.id,
        name: info.name.clone(),
        backend: info.backend,
        sector_size: info.sector_size,
        sector_count: info.sector_count,
        read_only: info.read_only,
        driver_backed: info.driver_backed,
    }
}

impl BlockManager {
    pub fn new() -> (r: Self)
        ensures
            r.wf(),
            r.next_id == 1,
            r.active is None,
            r.primary is None,
            r.devices@.len() == 0,
    {
        BlockManager { next_id: 1, active: None, primary: None, devices: Vec::new() }
    }

    /// Each device's media holds exactly its sector count of sectors.
    pub open spec fn wf(&self) -> bool {
        forall|i: int| 0 <= i < self.devices@.len() ==> (#[trigger] self.devices@[i]).media@.len() == self.devices@[i].info.sector_count
    }

    /// Position of the first device registered under `id`.
    #[verifier::opaque]
    pub open spec fn index_of(&self, id: BlockDeviceId) -> Option<int> {
        if exists|i: int| 0 <= i < self.devices@.len() && (#[trigger] self.devices@[i]).info.id == id {
            Some(choose|i: int| 0 <= i < self.devices@.len() && (#[trigger] self.devices@[i]).info.id == id
                && forall|j: int| 0 <= j < i ==> (#[trigger] self.devices@[j]).info.id != id)
        } else {
            None
        }
    }

    /// Position of the active device, if there is one and it is registered.
    pub open spec fn active_index(&self) -> Option<int> {
        match self.active {
            Some(id) => self.index_of(id),
            None => None,
        }
    }

    /// The sectors of the active device.
    pub open spec fn active_media(&self) -> Seq<[u8; 512]> {
        self.devices@[self.active_index()->Some_0].media@
    }

    /// Forget every device.
    pub fn clear(&mut self)
        ensures
            final(self).wf(),
            final(self).next_id == 1,
            final(self).active is None,
            final(self).primary is None,
            final(self).devices@.len() == 0,
    {
        self.next_id = 1;
        self.active = None;
        self.primary = None;
        self.devices = Vec::new();
    }

    /// Add a zero-filled device; the first device registered becomes the
    /// primary and (when none is) the active one.
    pub fn register(
        &mut self,
        name: &str,
        backend: BlockBackendKind,
        sector_count: usize,
        read_only: bool,
        driver_backed: bool,
    ) -> (r: BlockDeviceId)
        requires
            old(self).wf(),
        ensures
            final(self).wf(),
            r.0 == old(self).next_id,
            final(self).next_id == bumped(old(self).next_id),
            final(self).devices@.len() == old(self).devices@.len() + 1,
            forall|i: int| 0 <= i < old(self).devices@.len() ==> #[trigger] final(self).devices@[i] == old(self).devices@[i],
            final(self).devices@.last().info.id == r,
            final(self).devices@.last().info.name@ == name@,
            final(self).devices@.last().info.backend == backend,
            final(self).devices@.last().info.sector_size == SECTOR_SIZE,
            final(self).devices@.last().info.sector_count == sector_count,
            final(self).devices@.last().info.read_only == read_only,
            final(self).devices@.last().info.driver_backed == driver_backed,
            forall|k: int| 0 <= k < sector_count ==> is_zero_sector(#[trigger] final(self).devices@.last().media@[k]),
            final(self).primary == (if old(self).primary is None { Some(r) } else { old(self).primary }),
            final(self).active == (if old(self).active is None { Some(r) } else { old(self).active }),
    {
        let id = BlockDeviceId(self.next_id);
        self.next_id = bump(self.next_id);
        let mut media: Vec<[u8; 512]> = Vec::new();
        let mut k: usize = 0;
        while k < sector_count
            invariant
                k <= sector_count,
                media@.len() == k,
                forall|m: int| 0 <= m < k ==> is_zero_sector(#[trigger] media@[m]),
            decreases sector_count - k,
        {
            media.push([0u8; 512]);
            k += 1;
        }
        let info = BlockDeviceInfo {
            id,
            name: name.to_owned(),
            backend,
            sector_size: SECTOR_SIZE,
            sector_count,
            read_only,
            driver_backed,
        };
        self.devices.push(BlockDeviceEntry { info, media });
        if self.primary.is_none() {
            self.primary = Some(id);
        }
        if self.active.is_none() {
            self.active = Some(id);
        }
        id
    }
}

/// `index_of` finds the first device registered under `id`.
pub proof fn lemma_index_of(mgr: &BlockManager, id: BlockDeviceId)
    ensures
        mgr.index_of(id) matches Some(i) ==> 0 <= i < mgr.devices@.len() && mgr.devices@[i].info.id == id
            && forall|j: int| 0 <= j < i ==> (#[trigger] mgr.devices@[j]).info.id != id,
        mgr.index_of(id) is None ==> forall|j: int| 0 <= j < mgr.devices@.len() ==> (#[trigger] mgr.devices@[j]).info.id != id,
{
    reveal(BlockManager::index_of);
    if exists|i: int| 0 <= i < mgr.devices@.len() && (#[trigger] mgr.devices@[i]).info.id == id {
        let k = lemma_first_index(mgr.devices@, id);
    }
}

/// Some position holds `id`, so a first such position exists.
proof fn lemma_first_index(devs: Seq<BlockDeviceEntry>, id: BlockDeviceId) -> (k: int)
    requires
        exists|i: int| 0 <= i < devs.len() && (#[trigger] devs[i]).info.id == id,
    ensures
        0 <= k < devs.len() && devs[k].info.id == id && forall|j: int| 0 <= j < k ==> (#[trigger] devs[j]).info.id != id,
    decreases devs.len(),
{
    if devs.last().info.id == id && !(exists|i: int| 0 <= i < devs.len() - 1 && (#[trigger] devs[i]).info.id == id) {
        (devs.len() - 1) as int
    } else if exists|i: int| 0 <= i < devs.len() - 1 && (#[trigger] devs[i]).info.id == id {
        let w = choose|i: int| 0 <= i < devs.len() - 1 && (#[trigger] devs[i]).info.id == id;
        assert(devs.drop_last()[w].info.id == id);
        let k = lemma_first_index(devs.drop_last(), id);
        assert forall|j: int| 0 <= j < k implies (#[trigger] devs[j]).info.id != id by {
            assert(devs[j] == devs.drop_last()[j]);
        }
        k
    } else {
        let w = choose|i: int| 0 <= i < devs.len() && (#[trigger] devs[i]).info.id == id;
        assert(w == devs.len() - 1);
        (devs.len() - 1) as int
    }
}

/// A position that holds `id` with none before it is what `index_of` finds.
pub proof fn lemma_index_of_first(mgr: &BlockManager, id: BlockDeviceId, i: int)
    requires
        0 <= i < mgr.devices@.len(),
        mgr.devices@[i].info.id == id,
        forall|j: int| 0 <= j < i ==> (#[trigger] mgr.devices@[j]).info.id != id,
    ensures
        mgr.index_of(id) == Some(i),
{
    reveal(BlockManager::index_of);
    let w = choose|k: int| 0 <= k < mgr.devices@.len() && (#[trigger] mgr.devices@[k]).info.id == id
        && forall|j: int| 0 <= j < k ==> (#[trigger] mgr.devices@[j]).info.id != id;
    assert(0 <= i < mgr.devices@.len() && mgr.devices@[i].info.id == id && forall|j: int| 0 <= j < i ==> (#[trigger] mgr.devices@[j]).info.id != id);
    if w < i {
        assert(mgr.devices@[w].info.id != id);
    } else if w > i {
        assert(mgr.devices@[i].info.id != id);
    }
}

fn find_device(mgr: &BlockManager, id: BlockDeviceId) -> (r: Option<usize>)
    ensures
        r is None ==> mgr.index_of(id) is None,
        r matches Some(i) ==> mgr.index_of(id) == Some(i as int) && i < mgr.devices@.len(),
{
    let mut i: usize = 0;
    while i < mgr.devices.len()
        invariant
            i <= mgr.devices@.len(),
            forall|j: int| 0 <= j < i ==> (#[trigger] mgr.devices@[j]).info.id != id,
        decreases mgr.devices@.len() - i,
    {
        if mgr.devices[i].info.id == id {
            proof {
                lemma_index_of_first(mgr, id, i as int);
            }
            return Some(i);
        }
        i += 1;
    }
    proof {
        lemma_index_of(mgr, id);
        if mgr.index_of(id) is Some {
            let k = mgr.index_of(id)->Some_0;
            assert(mgr.devices@[k].info.id != id);
        }
    }
    None
}

fn active_entry(mgr: &BlockManager) -> (r: Result<usize, BlockError>)
    ensures
        mgr.active is None ==> r == Err::<usize, BlockError>(BlockError::NoActiveDevice),
        mgr.active is Some && mgr.active_index() is None ==> r == Err::<usize, BlockError>(BlockError::NotFound),
        r is Ok ==> mgr.active_index() == Some(r->Ok_0 as int) && r->Ok_0 < mgr.devices@.len(),
        mgr.active_index() is Some ==> r is Ok,
{
    let id = match mgr.active {
        Some(id) => id,
        None => return Err(BlockError::NoActiveDevice),
    };
    match find_device(mgr, id) {
        Some(i) => Ok(i),
        None => Err(BlockError::NotFound),
    }
}

/// Reset the manager with the simulated boot disk, and register that disk
/// as a ready block device.
pub fn init(mgr: &mut BlockManager, devs: &mut DeviceRegistry)
    ensures
        final(mgr).wf(),
        final(mgr).devices@.len() == 1,
        final(mgr).devices@[0].info.id == BlockDeviceId(1),
        final(mgr).devices@[0].info.backend == BlockBackendKind::SimulatedQemu,
        final(mgr).devices@[0].info.sector_count == DEFAULT_SECTOR_COUNT,
        final(mgr).devices@[0].info.sector_size == SECTOR_SIZE,
        !final(mgr).devices@[0].info.read_only && final(mgr).devices@[0].info.driver_backed,
        forall|k: int| 0 <= k < DEFAULT_SECTOR_COUNT ==> is_zero_sector(#[trigger] final(mgr).devices@[0].media@[k]),
        final(mgr).active == Some(BlockDeviceId(1)),
        final(mgr).primary == Some(BlockDeviceId(1)),
        final(devs).devices@.len() == old(devs).devices@.len() + 1,
        final(devs).devices@.last().kind == DeviceKind::Block,
{
    mgr.clear();
    mgr.register("qemu-sim-block0", BlockBackendKind::SimulatedQemu, DEFAULT_SECTOR_COUNT, false, true);
    register_device(
        devs,
        "qemu-sim-block0",
        DeviceKind::Block,
        DeviceState::Ready,
        None,
        None,
        Some(0x01),
        Some(0x00),
        None,
    );
}

/// Register a virtio block device.
pub fn register_virtio_blk(mgr: &mut BlockManager, name: &str, sector_count: usize, read_only: bool) -> (r: BlockDeviceId)
    requires
        old(mgr).wf(),
    ensures
        final(mgr).wf(),
        r.0 == old(mgr).next_id,
        final(mgr).devices@.len() == old(mgr).devices@.len() + 1,
        final(mgr).devices@.last().info.backend == BlockBackendKind::VirtioBlk,
        final(mgr).devices@.last().info.sector_count == sector_count,
        final(mgr).devices@.last().info.read_only == read_only,
        final(mgr).devices@.last().info.driver_backed,
        final(mgr).devices@.last().info.name@ == name@,
{
    mgr.register(name, BlockBackendKind::VirtioBlk, sector_count, read_only, true)
}

/// Register the in-memory fallback disk (also as a ready block device).
pub fn register_memory_fallback(mgr: &mut BlockManager, devs: &mut DeviceRegistry, sector_count: usize) -> (r: BlockDeviceId)
    requires
        old(mgr).wf(),
    ensures
        final(mgr).wf(),
        r.0 == old(mgr).next_id,
        final(mgr).devices@.len() == old(mgr).devices@.len() + 1,
        final(mgr).devices@.last().info.backend == BlockBackendKind::MemoryFallback,
        final(mgr).devices@.last().info.sector_count == sector_count,
        !final(mgr).devices@.last().info.read_only,
        !final(mgr).devices@.last().info.driver_backed,
        final(devs).devices@.len() == old(devs).devices@.len() + 1,
        final(devs).devices@.last().kind == DeviceKind::Block,
        forall|i: int| 0 <= i < old(mgr).devices@.len() ==> #[trigger] final(mgr).devices@[i] == old(mgr).devices@[i],
        final(mgr).devices@.last().info.id == r,
        forall|k: int| 0 <= k < sector_count ==> is_zero_sector(#[trigger] final(mgr).devices@.last().media@[k]),
        final(mgr).active == (if old(mgr).active is None { Some(r) } else { old(mgr).active }),
{
    let id = mgr.register("memory-fallback-block0", BlockBackendKind::MemoryFallback, sector_count, false, false);
    register_device(
        devs,
        "memory-fallback-block0",
        DeviceKind::Block,
        DeviceState::Ready,
        None,
        None,
        Some(0x01),
        Some(0x00),
        None,
    );
    id
}

pub fn primary_id(mgr: &BlockManager) -> (r: Option<BlockDeviceId>)
    ensures
        r == mgr.primary,
{
    mgr.primary
}

/// Make a registered device the active one.
pub fn set_active(mgr: &mut BlockManager, id: BlockDeviceId) -> (r: Result<(), BlockError>)
    ensures
        old(mgr).index_of(id) is None ==> r == Err::<(), BlockError>(BlockError::NotFound) && final(mgr).active == old(mgr).active,
        old(mgr).index_of(id) is Some ==> r is Ok && final(mgr).active == Some(id),
        final(mgr).devices == old(mgr).devices,
        final(mgr).primary == old(mgr).primary,
        final(mgr).next_id == old(mgr).next_id,
{
    match find_device(mgr, id) {
        Some(_) => {
            mgr.active = Some(id);
            Ok(())
        },
        None => Err(BlockError::NotFound),
    }
}

/// A copy of every device's description, in registration order.
pub fn list_block_devices(mgr: &BlockManager) -> (r: Vec<BlockDeviceInfo>)
    ensures
        r@.len() == mgr.devices@.len(),
        forall|i: int| 0 <= i < r@.len() ==> same_block_info(#[trigger] r@[i], mgr.devices@[i].info),
{
    let mut out: Vec<BlockDeviceInfo> = Vec::new();
    let mut i: usize = 0;
    while i < mgr.devices.len()
        invariant
            i <= mgr.devices@.len(),
            out@.len() == i,
            forall|k: int| 0 <= k < i ==> same_block_info(#[trigger] out@[k], mgr.devices@[k].info),
        decreases mgr.devices@.len() - i,
    {
        out.push(copy_block_info(&mgr.devices[i].info));
        i += 1;
    }
    out
}

/// The description of the active device.
pub fn active_info(mgr: &BlockManager) -> (r: Result<BlockDeviceInfo, BlockError>)
    ensures
        mgr.active is None ==> r == Err::<BlockDeviceInfo, BlockError>(BlockError::NoActiveDevice),
        mgr.active is Some && mgr.active_index() is None ==> r == Err::<BlockDeviceInfo, BlockError>(BlockError::NotFound),
        mgr.active_index() is Some ==> r is Ok && same_block_info(r->Ok_0, mgr.devices@[mgr.active_index()->Some_0].info),
{
    let i = active_entry(mgr)?;
    Ok(copy_block_info(&mgr.devices[i].info))
}

pub fn active_sector_count(mgr: &BlockManager) -> (r: Result<usize, BlockError>)
    ensures
        mgr.active is None ==> r == Err::<usize, BlockError>(BlockError::NoActiveDevice),
        mgr.active is Some && mgr.active_index() is None ==> r == Err::<usize, BlockError>(BlockError::NotFound),
        mgr.active_index() is Some ==> r == Ok::<usize, BlockError>(mgr.devices@[mgr.active_index()->Some_0].info.sector_count),
{
    let i = active_entry(mgr)?;
    Ok(mgr.devices[i].info.sector_count)
}

/// Copy sector `sector` of the active device into `buffer`.
pub fn read_active_sector(mgr: &BlockManager, sector: usize, buffer: &mut [u8; 512]) -> (r: Result<(), BlockError>)
    requires
        mgr.wf(),
    ensures
        mgr.active is None ==> r == Err::<(), BlockError>(BlockError::NoActiveDevice),
        mgr.active is Some && mgr.active_index() is None ==> r == Err::<(), BlockError>(BlockError::NotFound),
        mgr.active_index() is Some && sector >= mgr.active_media().len() ==> r == Err::<(), BlockError>(BlockError::OutOfRange),
        mgr.active_index() is Some && sector < mgr.active_media().len() ==> r is Ok && *final(buffer) == mgr.active_media()[sector as int],
        r is Err ==> *final(buffer) == *old(buffer),
{
    let i = active_entry(mgr)?;
    if sector >= mgr.devices[i].media.len() {
        return Err(BlockError::OutOfRange);
    }
    *buffer = mgr.devices[i].media[sector];
    Ok(())
}

/// Overwrite sector `sector` of the active device with `buffer`; refused on
/// a read-only device.
pub fn write_active_sector(mgr: &mut BlockManager, sector: usize, buffer: &[u8; 512]) -> (r: Result<(), BlockError>)
    requires
        old(mgr).wf(),
    ensures
        final(mgr).wf(),
        old(mgr).active is None ==> r == Err::<(), BlockError>(BlockError::NoActiveDevice),
        old(mgr).active is Some && old(mgr).active_index() is None ==> r == Err::<(), BlockError>(BlockError::NotFound),
        old(mgr).active_index() is Some && old(mgr).devices@[old(mgr).active_index()->Some_0].info.read_only ==> r == Err::<(), BlockError>(BlockError::ReadOnly),
        old(mgr).active_index() is Some && !old(mgr).devices@[old(mgr).active_index()->Some_0].info.read_only
            && sector >= old(mgr).active_media().len() ==> r == Err::<(), BlockError>(BlockError::OutOfRange),
        r is Err ==> final(mgr).devices@ == old(mgr).devices@,
        r is Ok ==> old(mgr).active_index() is Some && final(mgr).active_index() == old(mgr).active_index()
            && final(mgr).active_media() == old(mgr).active_media().update(sector as int, *buffer)
            && forall|j: int| 0 <= j < final(mgr).devices@.len() && j != old(mgr).active_index()->Some_0 ==> #[trigger] final(mgr).devices@[j] == old(mgr).devices@[j],
        r is Ok <==> old(mgr).active_index() is Some && !old(mgr).devices@[old(mgr).active_index()->Some_0].info.read_only
            && sector < old(mgr).active_media().len(),
        final(mgr).active == old(mgr).active,
        final(mgr).primary == old(mgr).primary,
        final(mgr).next_id == old(mgr).next_id,
        final(mgr).devices@.len() == old(mgr).devices@.len(),
        forall|j: int| 0 <= j < final(mgr).devices@.len() ==> #[trigger] final(mgr).devices@[j].info == old(mgr).devices@[j].info,
{
    let i = active_entry(mgr)?;
    if mgr.devices[i].info.read_only {
        return Err(BlockError::ReadOnly);
    }
    if sector >= mgr.devices[i].media.len() {
        return Err(BlockError::OutOfRange);
    }
    let ghost before = *mgr;
    let mut entry = mgr.devices.remove(i);
    entry.media.set(sector, *buffer);
    mgr.devices.insert(i, entry);
    assert(mgr.devices@ =~= before.devices@.update(i as int, mgr.devices@[i as int]));
    proof {
        let id = mgr.active->Some_0;
        lemma_index_of(&before, id);
        assert forall|j: int| 0 <= j < i implies (#[trigger] mgr.devices@[j]).info.id != id by {
            assert(mgr.devices@[j] == before.devices@[j]);
        }
        lemma_index_of_first(mgr, id, i as int);
    }
    Ok(())
}

/// Read after write on the active device: a written sector reads back as
/// written and every other sector keeps its contents.
pub proof fn lemma_sector_read_after_write(media: Seq<[u8; 512]>, sector: int, data: [u8; 512], other: int)
    requires
        0 <= sector < media.len(),
        0 <= other < media.len(),
        other != sector,
    ensures
        media.update(sector, data)[sector] == data,
        media.update(sector, data)[other] == media[other],
        media.update(sector, data).len() == media.len(),
{
}

/// The reported name of the active device's backend (`none` without one).
pub fn active_backend_name(mgr: &BlockManager) -> (r: &'static str)
    ensures
        mgr.active_index() is None ==> r@ == "none"@,
        mgr.active_index() is Some ==> ({
            let b = mgr.devices@[mgr.active_index()->Some_0].info.backend;
            &&& b == BlockBackendKind::SimulatedQemu ==> r@ == "qemu-sim-block0"@
            &&& b == BlockBackendKind::MemoryFallback ==> r@ == "memory-fallback-block0"@
            &&& b == BlockBackendKind::VirtioBlk ==> r@ == "virtio-blk0"@
        }),
{
    match active_entry(mgr) {
        Ok(i) => match mgr.devices[i].info.backend {
            BlockBackendKind::SimulatedQemu => "qemu-sim-block0",
            BlockBackendKind::MemoryFallback => "memory-fallback-block0",
            BlockBackendKind::VirtioBlk => "virtio-blk0",
        },
        Err(_) => "none",
    }
}

/// Number of driver-backed devices.
pub open spec fn count_driver_backed(devs: Seq<BlockDeviceEntry>) -> nat
    decreases devs.len(),
{
    if devs.len() == 0 {
        0
    } else {
        count_driver_backed(devs.drop_last()) + if devs.last().info.driver_backed {
            1nat
        } else {
            0nat
        }
    }
}

/// (devices, driver-backed devices, active backend name).
pub fn summary(mgr: &BlockManager) -> (r: (usize, usize, &'static str))
    ensures
        r.0 == mgr.devices@.len(),
        r.1 == count_driver_backed(mgr.devices@),
        r.2@ == active_backend_name_spec(mgr)@,
{
    let mut n: usize = 0;
    let mut i: usize = 0;
    while i < mgr.devices.len()
        invariant
            i <= mgr.devices@.len(),
            n == count_driver_backed(mgr.devices@.subrange(0, i as int)),
            n <= i,
        decreases mgr.devices@.len() - i,
    {
        assert(mgr.devices@.subrange(0, i + 1).drop_last() =~= mgr.devices@.subrange(0, i as int));
        if mgr.devices[i].info.driver_backed {
            n += 1;
        }
        i += 1;
    }
    assert(mgr.devices@.subrange(0, mgr.devices@.len() as int) =~= mgr.devices@);
    (mgr.devices.len(), n, active_backend_name(mgr))
}

/// The name `active_backend_name` reports.
pub open spec fn active_backend_name_spec(mgr: &BlockManager) -> &'static str {
    if mgr.active_index() is None {
        "none"
    } else {
        match mgr.devices@[mgr.active_index()->Some_0].info.backend {
            BlockBackendKind::SimulatedQemu => "qemu-sim-block0",
            BlockBackendKind::MemoryFallback => "memory-fallback-block0",
            BlockBackendKind::VirtioBlk => "virtio-blk0",
        }
    }
}

} // verus!
