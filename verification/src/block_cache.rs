//! Sector cache in front of a block device: 32 slots filled round-robin,
//! a write invalidates the cached copy of its sector.
use vstd::prelude::*;

use crate::block::{read_active_sector, write_active_sector, BlockError, BlockManager};
use crate::counter::{bump, bumped};

verus! {

pub const CACHE_SLOTS: usize = 32;

#[derive(Clone, Copy)]
pub struct CacheEntry {
    pub sector: usize,
    pub data: [u8; 512],
    pub valid: bool,
}

/// The cache slots, the round-robin cursor and the hit/miss counters.
pub struct SectorCache {
    pub entries: Vec<CacheEntry>,
    pub cursor: usize,
    pub hits: u64,
    pub misses: u64,
}

/// Whether slot `i` holds a valid copy of `sector`.
pub open spec fn caches(c: &SectorCache, i: int, sector: usize) -> bool {
    c.entries@[i].valid && c.entries@[i].sector == sector
}

/// No slot holds a valid copy of `sector`: a read of it is a miss.
pub open spec fn misses_on(c: &SectorCache, sector: usize) -> bool {
    forall|i: int| 0 <= i < CACHE_SLOTS ==> !caches(c, i, sector)
}

impl SectorCache {
    pub open spec fn wf(&self) -> bool {
        self.entries@.len() == CACHE_SLOTS
    }

    pub fn new() -> (r: Self)
        ensures
            r.wf(),
            forall|i: int| 0 <= i < CACHE_SLOTS ==> !(#[trigger] r.entries@[i]).valid,
            r.cursor == 0 && r.hits == 0 && r.misses == 0,
    {
        let mut entries: Vec<CacheEntry> = Vec::new();
        let mut i: usize = 0;
        while i < CACHE_SLOTS
            invariant
                i <= CACHE_SLOTS,
                entries@.len() == i,
                forall|k: int| 0 <= k < i ==> !(#[trigger] entries@[k]).valid,
            decreases CACHE_SLOTS - i,
        {
            entries.push(CacheEntry { sector: usize::MAX, data: [0u8; 512], valid: false });
            i += 1;
        }
        SectorCache { entries, cursor: 0, hits: 0, misses: 0 }
    }

    /// The cached copy of `sector` in the first slot holding one.
    fn lookup(&self, sector: usize) -> (r: Option<[u8; 512]>)
        requires
            self.wf(),
        ensures
            r is None ==> forall|i: int| 0 <= i < CACHE_SLOTS ==> !caches(self, i, sector),
            r matches Some(d) ==> exists|i: int| 0 <= i < CACHE_SLOTS && caches(self, i, sector) && self.entries@[i].data == d
                && forall|j: int| 0 <= j < i ==> !caches(self, j, sector),
    {
        let mut i: usize = 0;
        while i < CACHE_SLOTS
            invariant
                self.wf(),
                i <= CACHE_SLOTS,
                forall|j: int| 0 <= j < i ==> !caches(self, j, sector),
            decreases CACHE_SLOTS - i,
        {
            let e = self.entries[i];
            if e.valid && e.sector == sector {
                assert(caches(self, i as int, sector));
                return Some(e.data);
            }
            i += 1;
        }
        None
    }

    /// Store `data` for `sector` in the slot under the cursor and advance it.
    fn insert(&mut self, sector: usize, data: [u8; 512])
        requires
            old(self).wf(),
        ensures
            final(self).wf(),
            final(self).entries@ == old(self).entries@.update(
                (old(self).cursor % CACHE_SLOTS) as int,
                CacheEntry { sector, data, valid: true },
            ),
            final(self).cursor == (if old(self).cursor == usize::MAX { 0 } else { (old(self).cursor + 1) as usize }),
            final(self).hits == old(self).hits,
            final(self).misses == old(self).misses,
    {
        let idx = self.cursor % CACHE_SLOTS;
        self.cursor = if self.cursor == usize::MAX {
            0
        } else {
            self.cursor + 1
        };
        self.entries.set(idx, CacheEntry { sector, data, valid: true });
    }

    /// Drop every cached copy of `sector`.
    fn invalidate(&mut self, sector: usize)
        requires
            old(self).wf(),
        ensures
            final(self).wf(),
            forall|i: int| 0 <= i < CACHE_SLOTS ==> !caches(final(self), i, sector),
            forall|i: int| 0 <= i < CACHE_SLOTS && !caches(old(self), i, sector) ==> #[trigger] final(self).entries@[i] == old(self).entries@[i],
            final(self).cursor == old(self).cursor,
            final(self).hits == old(self).hits,
            final(self).misses == old(self).misses,
    {
        let mut i: usize = 0;
        while i < CACHE_SLOTS
            invariant
                self.wf(),
                i <= CACHE_SLOTS,
                self.cursor == old(self).cursor,
                self.hits == old(self).hits,
                self.misses == old(self).misses,
                forall|j: int| 0 <= j < i ==> !caches(self, j, sector),
                forall|j: int| 0 <= j < CACHE_SLOTS && (j >= i || !caches(old(self), j, sector)) ==> #[trigger] self.entries@[j] == old(self).entries@[j],
            decreases CACHE_SLOTS - i,
        {
            let e = self.entries[i];
            let ghost prev = self.entries@;
            let ghost start = *self;
            if e.valid && e.sector == sector {
                self.entries.set(i, CacheEntry { sector: e.sector, data: e.data, valid: false });
            }
            assert(!caches(self, i as int, sector));
            assert forall|j: int| 0 <= j <= i implies !caches(self, j, sector) by {
                if j < i {
                    assert(!caches(&start, j, sector));
                    assert(self.entries@[j] == prev[j]);
                }
            }
            i += 1;
        }
    }
}

/// (hits, misses).
pub fn status(c: &SectorCache) -> (r: (u64, u64))
    ensures
        r == (c.hits, c.misses),
{
    (c.hits, c.misses)
}

/// Read `sector` through the cache: a cached copy is a hit; otherwise the
/// device read `raw_read` is made and, when it succeeds, cached.
pub fn read_sector(
    c: &mut SectorCache,
    sector: usize,
    buffer: &mut [u8; 512],
    raw_read: impl FnOnce(usize) -> Result<[u8; 512], BlockError>,
) -> (r: Result<(), BlockError>)
    requires
        old(c).wf(),
        call_requires(raw_read, (sector,)),
    ensures
        final(c).wf(),
        (exists|i: int| 0 <= i < CACHE_SLOTS && caches(old(c), i, sector)) ==> r is Ok
            && final(c).hits == bumped(old(c).hits) && final(c).misses == old(c).misses
            && final(c).entries@ == old(c).entries@
            && exists|i: int| 0 <= i < CACHE_SLOTS && caches(old(c), i, sector) && old(c).entries@[i].data == *final(buffer),
        misses_on(old(c), sector) ==> final(c).misses == bumped(old(c).misses)
            && final(c).hits == old(c).hits
            && (r is Ok ==> call_ensures(raw_read, (sector,), Ok::<[u8; 512], BlockError>(*final(buffer)))
                && caches(final(c), (old(c).cursor % CACHE_SLOTS) as int, sector)
                && final(c).entries@[(old(c).cursor % CACHE_SLOTS) as int].data == *final(buffer))
            && (r is Err ==> call_ensures(raw_read, (sector,), Err::<[u8; 512], BlockError>(r->Err_0))
                && final(c).entries@ == old(c).entries@ && *final(buffer) == *old(buffer)),
{
    if let Some(data) = c.lookup(sector) {
        c.hits = bump(c.hits);
        *buffer = data;
        return Ok(());
    }
    c.misses = bump(c.misses);
    let ghost cursor = c.cursor;
    let res = raw_read(sector);
    assert(call_ensures(raw_read, (sector,), res));
    match res {
        Ok(data) => {
            *buffer = data;
            c.insert(sector, data);
            assert(c.entries@[(cursor % CACHE_SLOTS) as int] == (CacheEntry { sector, data, valid: true }));
            assert(caches(c, (cursor % CACHE_SLOTS) as int, sector));
            assert(res is Ok ==> *buffer == res->Ok_0);
            Ok(())
        },
        Err(e) => {
            assert(c.entries@ == old(c).entries@);
            Err(e)
        },
    }
}

/// Write `sector` through the cache: its cached copies are dropped first,
/// then the device write `raw_write` is made. Whatever the device answers,
/// the next `read_sector` of `sector` misses and goes to the device read;
/// the other sectors' entries are kept.
pub fn write_sector(
    c: &mut SectorCache,
    sector: usize,
    buffer: &[u8; 512],
    raw_write: impl FnOnce(usize, [u8; 512]) -> Result<(), BlockError>,
) -> (r: Result<(), BlockError>)
    requires
        old(c).wf(),
        call_requires(raw_write, (sector, *buffer)),
    ensures
        final(c).wf(),
        misses_on(final(c), sector),
        forall|i: int| 0 <= i < CACHE_SLOTS && !caches(old(c), i, sector) ==> #[trigger] final(c).entries@[i] == old(c).entries@[i],
        call_ensures(raw_write, (sector, *buffer), r),
        final(c).hits == old(c).hits && final(c).misses == old(c).misses,
{
    c.invalidate(sector);
    raw_write(sector, *buffer)
}

/// Cache smoke: write and read back sector 3 of the active device. The
/// reads go to the device directly, so the hit count never moves and the
/// smoke reports failure.
pub fn smoke_block_cache(c: &SectorCache, mgr: &mut BlockManager) -> (r: bool)
    requires
        old(mgr).wf(),
    ensures
        final(mgr).wf(),
        !r,
        ({
            let writable = old(mgr).active_index() is Some && !old(mgr).devices@[old(mgr).active_index()->Some_0].info.read_only
                && 3 < old(mgr).active_media().len();
            &&& writable ==> final(mgr).active_index() == old(mgr).active_index()
                && final(mgr).active_media().len() == old(mgr).active_media().len()
                && final(mgr).active_media()[3]@ == Seq::new(512, |i: int| if i == 0 { 0xBCu8 } else { 0u8 })
                && (forall|s: int| 0 <= s < old(mgr).active_media().len() && s != 3 ==> #[trigger] final(mgr).active_media()[s]
                == old(mgr).active_media()[s])
                && forall|j: int| 0 <= j < final(mgr).devices@.len() && j != old(mgr).active_index()->Some_0
                ==> #[trigger] final(mgr).devices@[j] == old(mgr).devices@[j]
            &&& !writable ==> final(mgr).devices@ == old(mgr).devices@
            &&& final(mgr).active == old(mgr).active && final(mgr).primary == old(mgr).primary
            &&& final(mgr).next_id == old(mgr).next_id
        }),
{
    let before = status(c);
    let mut buf = [0u8; 512];
    buf.set(0, 0xBC);
    assert(buf@ =~= Seq::new(512, |i: int| if i == 0 { 0xBCu8 } else { 0u8 }));
    if write_active_sector(mgr, 3, &buf).is_err() {
        return false;
    }
    let mut read = [0u8; 512];
    if read_active_sector(mgr, 3, &mut read).is_err() {
        return false;
    }
    if read_active_sector(mgr, 3, &mut read).is_err() {
        return false;
    }
    let after = status(c);
    read[0] == 0xBC && after.0 > before.0 && after.1 >= before.1
}

} // verus!
