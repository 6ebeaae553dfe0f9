//! Descriptor-only address-space model.
use vstd::prelude::*;

use crate::exec_image::{ExecutableFormat, ExecutableImage, SegmentFlags};

verus! {

pub const USER_MIN: u64 = 0x1000;
pub const USER_MAX: u64 = 0x0000_8000_0000_0000;

#[derive(Debug, Clone, Copy, PartialEq, Eq, Structural)]
pub struct AddressSpaceId(pub u64);

/// How far an image mapping has come: its pages laid out, or each of them
/// backed by a physical frame.
#[derive(Debug, Clone, Copy, PartialEq, Eq, Structural)]
pub enum MappingState {
    Mapped,
    FrameBacked,
}

impl AddressSpaceId {
    pub fn from_raw(raw: u64) -> (r: Self)
        ensures
            r.0 == raw,
    {
        Self(raw)
    }

    pub fn as_u64(self) -> (r: u64)
        ensures
            r == self.0,
    {
        self.0
    }
}

#[derive(Debug, Clone, Copy, PartialEq, Eq, Structural)]
pub enum RegionKind {
    Code,
    Data,
    Stack,
    Heap,
    KernelShared,
}

#[derive(Debug, Clone, PartialEq, Eq)]
pub struct VirtualRegion {
    pub start: u64,
    pub size: usize,
    pub kind: RegionKind,
    pub flags: SegmentFlags,
}

#[derive(Debug, Clone, PartialEq, Eq)]
pub struct AddressSpaceDescriptor {
    pub id: AddressSpaceId,
    pub regions: Vec<VirtualRegion>,
}

#[derive(Debug, Clone, Copy, PartialEq, Eq, Structural)]
pub enum AddressSpaceError {
    InvalidRegion,
    Overlap,
    WritableExecutable,
    KernelRange,
}

pub open spec fn region_end(r: VirtualRegion) -> int {
    r.start + r.size
}

/// The first problem found with a single region, in checking order.
pub open spec fn region_error(r: VirtualRegion) -> Option<AddressSpaceError> {
    if r.start < USER_MIN || r.size == 0 {
        Some(AddressSpaceError::InvalidRegion)
    } else if region_end(r) > u64::MAX {
        Some(AddressSpaceError::InvalidRegion)
    } else if region_end(r) > USER_MAX && r.kind != RegionKind::KernelShared {
        Some(AddressSpaceError::KernelRange)
    } else if r.flags.spec_writable() && r.flags.spec_executable() {
        Some(AddressSpaceError::WritableExecutable)
    } else {
        None
    }
}

/// The first problem between region `i` and the regions from `j` on.
pub open spec fn pair_error_from(rs: Seq<VirtualRegion>, i: int, j: int) -> Option<
    AddressSpaceError,
>
    decreases rs.len() - j,
{
    if j >= rs.len() || j < 0 {
        None
    } else if region_end(rs[j]) > u64::MAX {
        Some(AddressSpaceError::InvalidRegion)
    } else if rs[i].start < region_end(rs[j]) && rs[j].start < region_end(rs[i]) {
        Some(AddressSpaceError::Overlap)
    } else {
        pair_error_from(rs, i, j + 1)
    }
}

/// The first problem found scanning the regions from index `i` on.
pub open spec fn regions_error_from(rs: Seq<VirtualRegion>, i: int) -> Option<AddressSpaceError>
    decreases rs.len() - i,
{
    if i >= rs.len() || i < 0 {
        None
    } else {
        match region_error(rs[i]) {
            Some(e) => Some(e),
            None => match pair_error_from(rs, i, i + 1) {
                Some(e) => Some(e),
                None => regions_error_from(rs, i + 1),
            },
        }
    }
}

pub open spec fn check_result(e: Option<AddressSpaceError>) -> Result<(), AddressSpaceError> {
    match e {
        Some(e) => Err(e),
        None => Ok(()),
    }
}

pub fn validate_regions(regions: &[VirtualRegion]) -> (r: Result<(), AddressSpaceError>)
    ensures
        r == check_result(regions_error_from(regions@, 0)),
{
    let n = regions.len();
    let mut index: usize = 0;
    while index < n
        invariant
            n == regions@.len(),
            index <= n,
            regions_error_from(regions@, 0) == regions_error_from(regions@, index as int),
        decreases n - index,
    {
        let ghost rs = regions@;
        let region = &regions[index];
        if region.start < USER_MIN || region.size == 0 {
            return Err(AddressSpaceError::InvalidRegion);
        }
        let end = match region.start.checked_add(region.size as u64) {
            Some(e) => e,
            None => return Err(AddressSpaceError::InvalidRegion),
        };
        if end > USER_MAX && region.kind != RegionKind::KernelShared {
            return Err(AddressSpaceError::KernelRange);
        }
        if region.flags.writable() && region.flags.executable() {
            return Err(AddressSpaceError::WritableExecutable);
        }
        assert(region_error(rs[index as int]) is None);
        let mut j: usize = index + 1;
        while j < n
            invariant
                n == regions@.len(),
                rs == regions@,
                index < n,
                index + 1 <= j <= n,
                end == region_end(rs[index as int]),
                regions_error_from(rs, 0) == regions_error_from(rs, index as int),
                region_error(rs[index as int]) is None,
                pair_error_from(rs, index as int, index + 1) == pair_error_from(
                    rs,
                    index as int,
                    j as int,
                ),
            decreases n - j,
        {
            let other = &regions[j];
            let other_end = match other.start.checked_add(other.size as u64) {
                Some(e) => e,
                None => return Err(AddressSpaceError::InvalidRegion),
            };
            if regions[index].start < other_end && other.start < end {
                return Err(AddressSpaceError::Overlap);
            }
            j += 1;
        }
        index += 1;
    }
    Ok(())
}

pub open spec fn spec_kind_for_flags(flags: SegmentFlags) -> RegionKind {
    if flags.spec_executable() {
        RegionKind::Code
    } else {
        RegionKind::Data
    }
}

fn kind_for_flags(flags: SegmentFlags) -> (r: RegionKind)
    ensures
        r == spec_kind_for_flags(flags),
{
    if flags.executable() {
        RegionKind::Code
    } else if flags.writable() {
        RegionKind::Data
    } else {
        RegionKind::Data
    }
}

/// The regions an image's segments describe, one per segment in order.
pub open spec fn regions_match_segments(
    regions: Seq<VirtualRegion>,
    image: ExecutableImage,
) -> bool {
    &&& regions.len() == image.segments@.len()
    &&& forall|i: int|
        0 <= i < regions.len() ==> {
            let s = #[trigger] image.segments@[i];
            &&& regions[i].start == s.virtual_address
            &&& regions[i].size == s.memory_size
            &&& regions[i].kind == spec_kind_for_flags(s.flags)
            &&& regions[i].flags == s.flags
        }
}

pub fn descriptor_for_image(id: AddressSpaceId, image: &ExecutableImage) -> (r: Result<
    AddressSpaceDescriptor,
    AddressSpaceError,
>)
    ensures
        image.format == ExecutableFormat::BuiltinAlias ==> r is Ok && r->Ok_0.id == id
            && r->Ok_0.regions@.len() == 0,
        image.format != ExecutableFormat::BuiltinAlias ==> match r {
            Ok(d) => d.id == id && regions_match_segments(d.regions@, *image)
                && regions_error_from(d.regions@, 0) is None,
            Err(e) => exists|rs: Seq<VirtualRegion>|
                regions_match_segments(rs, *image) && regions_error_from(rs, 0) == Some(e),
        },
{
    let mut regions: Vec<VirtualRegion> = Vec::new();
    if image.format == ExecutableFormat::BuiltinAlias {
        return Ok(AddressSpaceDescriptor { id, regions });
    }
    let n = image.segments.len();
    let mut i: usize = 0;
    while i < n
        invariant
            n == image.segments@.len(),
            i <= n,
            regions@.len() == i,
            forall|k: int|
                0 <= k < i ==> {
                    let s = #[trigger] image.segments@[k];
                    &&& regions@[k].start == s.virtual_address
                    &&& regions@[k].size == s.memory_size
                    &&& regions@[k].kind == spec_kind_for_flags(s.flags)
                    &&& regions@[k].flags == s.flags
                },
        decreases n - i,
    {
        let segment = &image.segments[i];
        regions.push(
            VirtualRegion {
                start: segment.virtual_address,
                size: segment.memory_size,
                kind: kind_for_flags(segment.flags),
                flags: segment.flags,
            },
        );
        i += 1;
    }
    match validate_regions(regions.as_slice()) {
        Ok(()) => Ok(AddressSpaceDescriptor { id, regions }),
        Err(e) => Err(e),
    }
}

} // verus!
