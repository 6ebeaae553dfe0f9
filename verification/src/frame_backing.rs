//! Frame-backed executable images: every page of a mapped image gets a
//! physical frame of its own, with the bytes its load actions copy or zero.
use vstd::prelude::*;

use crate::address_space::{AddressSpaceId, MappingState};
use crate::load_plan::{LoadPermissions, PAGE_SIZE};
use crate::security::Credentials;

verus! {

#[derive(Debug, Clone, Copy, PartialEq, Eq, Structural)]
pub enum MappingActionKind {
    Copy,
    ZeroFill,
}

/// A load action as it landed in the mapping: `len` bytes at
/// `target_address`, copied from the image or zero-filled.
#[derive(Debug, Clone, Copy)]
pub struct MappingActionResult {
    pub target_address: u64,
    pub len: usize,
    pub kind: MappingActionKind,
}

#[derive(Debug, Clone, Copy)]
pub struct MappedPage {
    pub virtual_address: u64,
    pub permissions: LoadPermissions,
}

pub struct MappedRegion {
    pub start: u64,
    pub size: usize,
    pub permissions: LoadPermissions,
    pub pages: Vec<MappedPage>,
    pub actions: Vec<MappingActionResult>,
}

/// A mapped (not yet backed) image.
pub struct MappedImage {
    pub id: u64,
    pub image_name: String,
    pub source_path: String,
    pub address_space_id: AddressSpaceId,
    pub regions: Vec<MappedRegion>,
    pub total_pages: usize,
    pub executable_pages: usize,
    pub writable_pages: usize,
    pub read_only_pages: usize,
    pub copied_bytes: usize,
    pub zero_filled_bytes: usize,
    pub owner: Credentials,
}

/// A physical frame owned by an image.
#[derive(Debug, Clone, Copy, PartialEq, Eq, Structural)]
pub struct OwnedFrame {
    pub start_address: u64,
}

/// The free physical frames images draw from.
pub struct FramePool {
    pub free: Vec<u64>,
}

#[derive(Debug, Clone, Copy)]
pub struct FrameBackedPage {
    pub virtual_address: u64,
    pub frame: OwnedFrame,
    pub permissions: LoadPermissions,
    pub copied_bytes: usize,
    pub zero_filled_bytes: usize,
}

pub struct FrameBackedRegion {
    pub start: u64,
    pub size: usize,
    pub permissions: LoadPermissions,
    pub pages: Vec<FrameBackedPage>,
}

pub struct FrameBackedImage {
    pub mapping_id: u64,
    pub image_name: String,
    pub source_path: String,
    pub address_space_id: AddressSpaceId,
    pub regions: Vec<FrameBackedRegion>,
    pub total_pages: usize,
    pub executable_pages: usize,
    pub writable_pages: usize,
    pub read_only_pages: usize,
    pub copied_bytes: usize,
    pub zero_filled_bytes: usize,
    pub owner: Credentials,
    pub state: MappingState,
}

/// The frame addresses of a region's pages, in page order.
pub open spec fn frames_of_pages(pages: Seq<FrameBackedPage>) -> Seq<u64> {
    pages.map_values(|p: FrameBackedPage| p.frame.start_address)
}

/// The frame addresses of all pages of the regions, region by region.
pub open spec fn backed_frames(regions: Seq<FrameBackedRegion>) -> Seq<u64>
    decreases regions.len(),
{
    if regions.len() == 0 {
        Seq::empty()
    } else {
        backed_frames(regions.drop_last()) + frames_of_pages(regions.last().pages@)
    }
}

#[derive(Debug, Clone, Copy, PartialEq, Eq, Structural)]
pub enum FrameBackingError {
    EmptyMapping,
    FrameUnavailable,
    ReleaseFailed,
}

pub open spec fn sat_add(a: int, b: int) -> int {
    if a + b > usize::MAX {
        usize::MAX as int
    } else {
        a + b
    }
}

pub open spec fn sat_add64(a: int, b: int) -> int {
    if a + b > u64::MAX {
        u64::MAX as int
    } else {
        a + b
    }
}

/// Bytes of the page `[page_start, page_start + PAGE_SIZE)` an action covers.
pub open spec fn overlap(page_start: u64, a: MappingActionResult) -> int {
    let page_end = sat_add64(page_start as int, PAGE_SIZE as int);
    let action_end = sat_add64(a.target_address as int, a.len as int);
    let lo = if page_start >= a.target_address { page_start as int } else { a.target_address as int };
    let hi = if page_end <= action_end { page_end } else { action_end };
    if hi <= lo {
        0
    } else {
        hi - lo
    }
}

/// (copied, zero-filled) bytes of a page, summed (saturating) over the
/// region's actions.
pub open spec fn page_bytes(page_start: u64, actions: Seq<MappingActionResult>) -> (int, int)
    decreases actions.len(),
{
    if actions.len() == 0 {
        (0, 0)
    } else {
        let (c, z) = page_bytes(page_start, actions.drop_last());
        let o = overlap(page_start, actions.last());
        match actions.last().kind {
            MappingActionKind::Copy => (sat_add(c, o), z),
            MappingActionKind::ZeroFill => (c, sat_add(z, o)),
        }
    }
}

/// How many of a page's bytes the region's copy and zero-fill actions
/// cover.
pub fn bytes_for_page(page_start: u64, actions: &[MappingActionResult]) -> (r: (usize, usize))
    ensures
        r.0 == page_bytes(page_start, actions@).0,
        r.1 == page_bytes(page_start, actions@).1,
{
    let page_end = page_start.saturating_add(PAGE_SIZE as u64);
    let mut copied: usize = 0;
    let mut zeroed: usize = 0;
    let mut i: usize = 0;
    while i < actions.len()
        invariant
            i <= actions@.len(),
            page_end == sat_add64(page_start as int, PAGE_SIZE as int),
            copied == page_bytes(page_start, actions@.take(i as int)).0,
            zeroed == page_bytes(page_start, actions@.take(i as int)).1,
        decreases actions@.len() - i,
    {
        assert(actions@.take(i + 1).drop_last() =~= actions@.take(i as int));
        let action = actions[i];
        let action_start = action.target_address;
        let action_end = action.target_address.saturating_add(action.len as u64);
        let overlap_start = if page_start >= action_start {
            page_start
        } else {
            action_start
        };
        let overlap_end = if page_end <= action_end {
            page_end
        } else {
            action_end
        };
        if overlap_end > overlap_start {
            let ov = (overlap_end - overlap_start) as usize;
            match action.kind {
                MappingActionKind::Copy => copied = copied.saturating_add(ov),
                MappingActionKind::ZeroFill => zeroed = zeroed.saturating_add(ov),
            }
        }
        i += 1;
    }
    assert(actions@.take(actions@.len() as int) =~= actions@);
    (copied, zeroed)
}

/// Total pages of a mapping's regions.
pub open spec fn page_total(regions: Seq<MappedRegion>) -> nat
    decreases regions.len(),
{
    if regions.len() == 0 {
        0
    } else {
        page_total(regions.drop_last()) + regions.last().pages@.len()
    }
}

/// Give frames back to the pool.
fn release_allocated(pool: &mut FramePool, frames: &Vec<u64>)
    ensures
        final(pool).free@ == old(pool).free@ + frames@,
{
    let mut i: usize = 0;
    while i < frames.len()
        invariant
            i <= frames@.len(),
            pool.free@ == old(pool).free@ + frames@.take(i as int),
        decreases frames@.len() - i,
    {
        pool.free.push(frames[i]);
        i += 1;
        assert(pool.free@ =~= old(pool).free@ + frames@.take(i as int));
    }
    assert(frames@.take(frames@.len() as int) =~= frames@);
}

/// Back every page of `mapped` with a frame from the pool, taken from the
/// end of the free list one page after another, and mark the image
/// frame-backed. An empty mapping is refused; when the pool runs out, the
/// frames taken so far go back (in the order they were taken) and the
/// backing fails.
pub fn back_mapped_image(pool: &mut FramePool, mapped: &MappedImage) -> (r: Result<FrameBackedImage, FrameBackingError>)
    ensures
        mapped.total_pages == 0 || mapped.regions@.len() == 0 ==> r == Err::<FrameBackedImage, FrameBackingError>(FrameBackingError::EmptyMapping)
            && final(pool).free@ == old(pool).free@,
        !(mapped.total_pages == 0 || mapped.regions@.len() == 0) ==> (r is Ok <==> page_total(mapped.regions@) <= old(pool).free@.len()),
        r is Err ==> final(pool).free@.len() == old(pool).free@.len(),
        r is Err ==> r != Err::<FrameBackedImage, FrameBackingError>(FrameBackingError::ReleaseFailed),
        r == Err::<FrameBackedImage, FrameBackingError>(FrameBackingError::FrameUnavailable) ==> final(pool).free@
            == old(pool).free@.reverse(),
        r is Ok ==> ({
            let img = r->Ok_0;
            &&& final(pool).free@ == old(pool).free@.take(old(pool).free@.len() - page_total(mapped.regions@))
            &&& backed_frames(img.regions@) == old(pool).free@.skip(
                old(pool).free@.len() - page_total(mapped.regions@),
            ).reverse()
            &&& old(pool).free@.no_duplicates() ==> backed_frames(img.regions@).no_duplicates()
            &&& img.state == MappingState::FrameBacked
            &&& img.mapping_id == mapped.id
            &&& img.image_name@ == mapped.image_name@
            &&& img.source_path@ == mapped.source_path@
            &&& img.address_space_id == mapped.address_space_id
            &&& img.total_pages == mapped.total_pages
            &&& img.executable_pages == mapped.executable_pages
            &&& img.writable_pages == mapped.writable_pages
            &&& img.read_only_pages == mapped.read_only_pages
            &&& img.copied_bytes == mapped.copied_bytes
            &&& img.zero_filled_bytes == mapped.zero_filled_bytes
            &&& img.owner == mapped.owner
            &&& img.regions@.len() == mapped.regions@.len()
            &&& forall|i: int| 0 <= i < img.regions@.len() ==> {
                &&& (#[trigger] img.regions@[i]).start == mapped.regions@[i].start
                &&& img.regions@[i].size == mapped.regions@[i].size
                &&& img.regions@[i].permissions == mapped.regions@[i].permissions
                &&& img.regions@[i].pages@.len() == mapped.regions@[i].pages@.len()
                &&& forall|j: int| 0 <= j < img.regions@[i].pages@.len() ==> {
                    &&& (#[trigger] img.regions@[i].pages@[j]).virtual_address == mapped.regions@[i].pages@[j].virtual_address
                    &&& img.regions@[i].pages@[j].permissions == mapped.regions@[i].pages@[j].permissions
                    &&& img.regions@[i].pages@[j].copied_bytes == page_bytes(mapped.regions@[i].pages@[j].virtual_address, mapped.regions@[i].actions@).0
                    &&& img.regions@[i].pages@[j].zero_filled_bytes == page_bytes(mapped.regions@[i].pages@[j].virtual_address, mapped.regions@[i].actions@).1
                }
            }
        }),
{
    if mapped.total_pages == 0 || mapped.regions.len() == 0 {
        return Err(FrameBackingError::EmptyMapping);
    }
    let mut allocated: Vec<u64> = Vec::new();
    let mut regions: Vec<FrameBackedRegion> = Vec::new();
    let mut ri: usize = 0;
    while ri < mapped.regions.len()
        invariant
            ri <= mapped.regions@.len(),
            mapped.total_pages != 0 && mapped.regions@.len() != 0,
            allocated@.len() <= old(pool).free@.len(),
            regions@.len() == ri,
            allocated@.len() == page_total(mapped.regions@.take(ri as int)),
            page_total(mapped.regions@.take(ri as int)) <= old(pool).free@.len(),
            pool.free@ == old(pool).free@.take(old(pool).free@.len() - allocated@.len()),
            forall|k: int| 0 <= k < allocated@.len() ==> #[trigger] allocated@[k] == old(pool).free@[old(pool).free@.len() - 1 - k],
            backed_frames(regions@) == allocated@,
            forall|i: int| 0 <= i < ri ==> {
                &&& (#[trigger] regions@[i]).start == mapped.regions@[i].start
                &&& regions@[i].size == mapped.regions@[i].size
                &&& regions@[i].permissions == mapped.regions@[i].permissions
                &&& regions@[i].pages@.len() == mapped.regions@[i].pages@.len()
                &&& forall|j: int| 0 <= j < regions@[i].pages@.len() ==> {
                    &&& (#[trigger] regions@[i].pages@[j]).virtual_address == mapped.regions@[i].pages@[j].virtual_address
                    &&& regions@[i].pages@[j].permissions == mapped.regions@[i].pages@[j].permissions
                    &&& regions@[i].pages@[j].copied_bytes == page_bytes(mapped.regions@[i].pages@[j].virtual_address, mapped.regions@[i].actions@).0
                    &&& regions@[i].pages@[j].zero_filled_bytes == page_bytes(mapped.regions@[i].pages@[j].virtual_address, mapped.regions@[i].actions@).1
                }
            },
        decreases mapped.regions@.len() - ri,
    {
        let region = &mapped.regions[ri];
        assert(mapped.regions@.take(ri + 1).drop_last() =~= mapped.regions@.take(ri as int));
        let mut pages: Vec<FrameBackedPage> = Vec::new();
        let mut pi: usize = 0;
        let ghost base = allocated@.len();
        while pi < region.pages.len()
            invariant
                ri < mapped.regions@.len(),
                mapped.total_pages != 0 && mapped.regions@.len() != 0,
                allocated@.len() <= old(pool).free@.len(),
                region == &mapped.regions@[ri as int],
                pi <= region.pages@.len(),
                pages@.len() == pi,
                base == page_total(mapped.regions@.take(ri as int)),
                allocated@.len() == base + pi,
                base <= old(pool).free@.len(),
                pool.free@ == old(pool).free@.take(old(pool).free@.len() - allocated@.len()),
                forall|k: int| 0 <= k < allocated@.len() ==> #[trigger] allocated@[k] == old(pool).free@[old(pool).free@.len() - 1 - k],
                backed_frames(regions@) + frames_of_pages(pages@) == allocated@,
                forall|j: int| 0 <= j < pi ==> {
                    &&& (#[trigger] pages@[j]).virtual_address == region.pages@[j].virtual_address
                    &&& pages@[j].permissions == region.pages@[j].permissions
                    &&& pages@[j].copied_bytes == page_bytes(region.pages@[j].virtual_address, region.actions@).0
                    &&& pages@[j].zero_filled_bytes == page_bytes(region.pages@[j].virtual_address, region.actions@).1
                },
            decreases region.pages@.len() - pi,
        {
            let page = region.pages[pi];
            let frame = match pool.free.pop() {
                Some(f) => f,
                None => {
                    proof {
                        lemma_page_total_prefix(mapped.regions@, ri as int);
                    }
                    release_allocated(pool, &allocated);
                    assert(allocated@.len() == old(pool).free@.len());
                    assert(pool.free@ =~= old(pool).free@.reverse());
                    return Err(FrameBackingError::FrameUnavailable);
                },
            };
            allocated.push(frame);
            assert(pool.free@ =~= old(pool).free@.take(old(pool).free@.len() - allocated@.len()));
            let (copied_bytes, zero_filled_bytes) = bytes_for_page(page.virtual_address, region.actions.as_slice());
            let ghost pages0 = pages@;
            pages.push(
                FrameBackedPage {
                    virtual_address: page.virtual_address,
                    frame: OwnedFrame { start_address: frame },
                    permissions: page.permissions,
                    copied_bytes,
                    zero_filled_bytes,
                },
            );
            assert(frames_of_pages(pages@) =~= frames_of_pages(pages0).push(frame));
            assert(backed_frames(regions@) + frames_of_pages(pages@) =~= allocated@);
            pi += 1;
        }
        let ghost regions0 = regions@;
        regions.push(
            FrameBackedRegion { start: region.start, size: region.size, permissions: region.permissions, pages },
        );
        assert(regions@.drop_last() =~= regions0);
        ri += 1;
    }
    assert(mapped.regions@.take(mapped.regions@.len() as int) =~= mapped.regions@);
    proof {
        let s0 = old(pool).free@;
        let t = page_total(mapped.regions@);
        assert(allocated@ =~= s0.skip(s0.len() - t).reverse());
        if s0.no_duplicates() {
            assert forall|a: int, b: int| 0 <= a < allocated@.len() && 0 <= b < allocated@.len() && a != b
                implies allocated@[a] != allocated@[b] by {
                assert(allocated@[a] == s0[s0.len() - 1 - a]);
                assert(allocated@[b] == s0[s0.len() - 1 - b]);
            }
        }
    }
    Ok(
        FrameBackedImage {
            mapping_id: mapped.id,
            image_name: mapped.image_name.clone(),
            source_path: mapped.source_path.clone(),
            address_space_id: mapped.address_space_id,
            regions,
            total_pages: mapped.total_pages,
            executable_pages: mapped.executable_pages,
            writable_pages: mapped.writable_pages,
            read_only_pages: mapped.read_only_pages,
            copied_bytes: mapped.copied_bytes,
            zero_filled_bytes: mapped.zero_filled_bytes,
            owner: mapped.owner,
            state: MappingState::FrameBacked,
        },
    )
}

/// The pages of the first `k` regions are no more than all of them.
proof fn lemma_page_total_prefix(regions: Seq<MappedRegion>, k: int)
    requires
        0 <= k < regions.len(),
    ensures
        page_total(regions.take(k)) + regions[k].pages@.len() <= page_total(regions),
    decreases regions.len() - k,
{
    if k + 1 < regions.len() {
        lemma_page_total_prefix(regions, k + 1);
        assert(regions.take(k + 2).drop_last() =~= regions.take(k + 1));
        assert(regions.take(k + 1).drop_last() =~= regions.take(k));
        lemma_page_total_mono(regions, k + 1);
    } else {
        assert(regions.take(k + 1) =~= regions);
        assert(regions.take(k + 1).drop_last() =~= regions.take(k));
    }
}

proof fn lemma_page_total_mono(regions: Seq<MappedRegion>, k: int)
    requires
        0 <= k <= regions.len(),
    ensures
        page_total(regions.take(k)) <= page_total(regions),
    decreases regions.len() - k,
{
    if k < regions.len() {
        lemma_page_total_mono(regions, k + 1);
        assert(regions.take(k + 1).drop_last() =~= regions.take(k));
    } else {
        assert(regions.take(k) =~= regions);
    }
}

} // verus!
