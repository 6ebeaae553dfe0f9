//! Executable load-plan model.
use vstd::prelude::*;

use crate::exec_image::{ExecutableFormat, ExecutableImage, ImageSegment, SegmentFlags};

verus! {

pub const PAGE_SIZE: usize = 4096;
pub const MAX_LOAD_REGIONS: usize = 4;
pub const MAX_IMAGE_PAGES: usize = 16;
pub const STACK_RESERVATION_PAGES: usize = 2;

#[derive(Debug, Clone, Copy, PartialEq, Eq, Structural)]
pub struct LoadPermissions {
    bits: u8,
}

impl LoadPermissions {
    pub const READ: u8 = 0b001;
    pub const WRITE: u8 = 0b010;
    pub const EXECUTE: u8 = 0b100;

    pub closed spec fn spec_bits(self) -> u8 {
        self.bits
    }

    pub open spec fn spec_writable(self) -> bool {
        self.spec_bits() & 2 != 0
    }

    pub open spec fn spec_executable(self) -> bool {
        self.spec_bits() & 4 != 0
    }

    pub fn from_bits(bits: u8) -> (r: Self)
        ensures
            r.spec_bits() == bits & 7,
    {
        Self { bits: bits & 0b111 }
    }

    pub fn bits(self) -> (r: u8)
        ensures
            r == self.spec_bits(),
    {
        self.bits
    }

    pub fn readable(self) -> (r: bool)
        ensures
            r == (self.spec_bits() & 1 != 0),
    {
        self.bits & 1 != 0
    }

    pub fn writable(self) -> (r: bool)
        ensures
            r == self.spec_writable(),
    {
        self.bits & 2 != 0
    }

    pub fn executable(self) -> (r: bool)
        ensures
            r == self.spec_executable(),
    {
        self.bits & 4 != 0
    }
}

/// The permission bits a segment's flags translate to.
pub open spec fn perm_bits_of(flags: SegmentFlags) -> u8 {
    ((if flags.spec_readable() { 1u8 } else { 0u8 }) | (if flags.spec_writable() {
        2u8
    } else {
        0u8
    }) | (if flags.spec_executable() {
        4u8
    } else {
        0u8
    })) & 7
}

fn permissions_from_flags(flags: SegmentFlags) -> (r: LoadPermissions)
    ensures
        r.spec_bits() == perm_bits_of(flags),
{
    LoadPermissions::from_bits(
        (if flags.readable() {
            1u8
        } else {
            0u8
        }) | (if flags.writable() {
            2u8
        } else {
            0u8
        }) | (if flags.executable() {
            4u8
        } else {
            0u8
        }),
    )
}

#[derive(Debug, Clone, Copy, PartialEq, Eq)]
pub enum LoadAction {
    Copy { file_offset: usize, target_address: u64, len: usize },
    ZeroFill { target_address: u64, len: usize },
}

#[derive(Debug, Clone, PartialEq, Eq)]
pub struct LoadRegion {
    pub start: u64,
    pub size: usize,
    pub page_count: usize,
    pub permissions: LoadPermissions,
    pub actions: Vec<LoadAction>,
}

#[derive(Debug, Clone, PartialEq, Eq)]
pub struct LoadPlan {
    pub image_name: String,
    pub source_path: String,
    pub entry_point: u64,
    pub regions: Vec<LoadRegion>,
    pub total_pages: usize,
    pub stack_pages: usize,
}

#[derive(Debug, Clone, Copy, PartialEq, Eq, Structural)]
pub enum LoadPlanError {
    UnsupportedFormat,
    InvalidAlignment,
    InvalidBounds,
    Overlap,
    WritableExecutable,
    MissingExecutableSegment,
    EntryOutsideExecutableSegment,
    BudgetExceeded,
}

/// A load region as plain values: start, size, page count, permission bits,
/// actions.
pub type RegionView = (u64, usize, usize, u8, Seq<LoadAction>);

pub open spec fn region_view(r: LoadRegion) -> RegionView {
    (r.start, r.size, r.page_count, r.permissions.spec_bits(), r.actions@)
}

pub open spec fn rv_end(r: RegionView) -> int {
    r.0 + r.1
}

pub open spec fn rv_exec(r: RegionView) -> bool {
    r.3 & 4 != 0
}

pub open spec fn rv_writable(r: RegionView) -> bool {
    r.3 & 2 != 0
}

pub open spec fn align_down_spec(value: int) -> int {
    value / 4096 * 4096
}

pub open spec fn align_up_spec(value: int) -> int {
    (value + 4095) / 4096 * 4096
}

/// The copy/zero-fill actions a segment asks for.
pub open spec fn segment_actions(s: ImageSegment) -> Seq<LoadAction> {
    let copy = LoadAction::Copy {
        file_offset: s.file_offset,
        target_address: s.virtual_address,
        len: s.file_size,
    };
    if s.memory_size > s.file_size {
        seq![
            copy,
            LoadAction::ZeroFill {
                target_address: (s.virtual_address + s.file_size) as u64,
                len: (s.memory_size - s.file_size) as usize,
            },
        ]
    } else {
        seq![copy]
    }
}

/// The page-aligned region a segment occupies, or why it cannot be placed.
pub open spec fn segment_region(s: ImageSegment) -> Result<RegionView, LoadPlanError> {
    let perm = perm_bits_of(s.flags);
    let e = s.virtual_address + s.memory_size;
    if perm & 2 != 0 && perm & 4 != 0 {
        Err(LoadPlanError::WritableExecutable)
    } else if e > u64::MAX || e + 4095 > u64::MAX {
        Err(LoadPlanError::InvalidBounds)
    } else if align_up_spec(e) <= align_down_spec(s.virtual_address as int) {
        Err(LoadPlanError::InvalidBounds)
    } else if align_up_spec(e) - align_down_spec(s.virtual_address as int) > usize::MAX {
        Err(LoadPlanError::InvalidBounds)
    } else {
        let size = align_up_spec(e) - align_down_spec(s.virtual_address as int);
        Ok(
            (
                align_down_spec(s.virtual_address as int) as u64,
                size as usize,
                ((size + 4095) / 4096) as usize,
                perm,
                segment_actions(s),
            ),
        )
    }
}

/// The regions for the first `k` segments, or the first segment error.
pub open spec fn regions_upto(segs: Seq<ImageSegment>, k: nat) -> Result<
    Seq<RegionView>,
    LoadPlanError,
>
    decreases k,
{
    if k == 0 {
        Ok(Seq::empty())
    } else {
        match regions_upto(segs, (k - 1) as nat) {
            Err(e) => Err(e),
            Ok(rs) => match segment_region(segs[k - 1]) {
                Err(e) => Err(e),
                Ok(r) => Ok(rs.push(r)),
            },
        }
    }
}

/// The first problem with one region alone.
pub open spec fn lr_error(r: RegionView) -> Option<LoadPlanError> {
    if r.0 % 4096 != 0 || r.1 == 0 || r.1 % 4096 != 0 {
        Some(LoadPlanError::InvalidAlignment)
    } else if rv_writable(r) && rv_exec(r) {
        Some(LoadPlanError::WritableExecutable)
    } else if rv_end(r) > u64::MAX {
        Some(LoadPlanError::InvalidBounds)
    } else {
        None
    }
}

/// The first problem between region `i` and the regions from `j` on.
pub open spec fn lr_pair_error_from(rs: Seq<RegionView>, i: int, j: int) -> Option<LoadPlanError>
    decreases rs.len() - j,
{
    if j >= rs.len() || j < 0 {
        None
    } else if rv_end(rs[j]) > u64::MAX {
        Some(LoadPlanError::InvalidBounds)
    } else if rs[i].0 < rv_end(rs[j]) && rs[j].0 < rv_end(rs[i]) {
        Some(LoadPlanError::Overlap)
    } else {
        lr_pair_error_from(rs, i, j + 1)
    }
}

pub open spec fn lr_error_from(rs: Seq<RegionView>, i: int) -> Option<LoadPlanError>
    decreases rs.len() - i,
{
    if i >= rs.len() || i < 0 {
        None
    } else {
        match lr_error(rs[i]) {
            Some(e) => Some(e),
            None => match lr_pair_error_from(rs, i, i + 1) {
                Some(e) => Some(e),
                None => lr_error_from(rs, i + 1),
            },
        }
    }
}

/// The first problem with a region list: no executable region at all, then
/// per-region and pairwise problems in scanning order.
pub open spec fn load_regions_error(rs: Seq<RegionView>) -> Option<LoadPlanError> {
    if !(exists|i: int| 0 <= i < rs.len() && rv_exec(#[trigger] rs[i])) {
        Some(LoadPlanError::MissingExecutableSegment)
    } else {
        lr_error_from(rs, 0)
    }
}

pub open spec fn check_result(e: Option<LoadPlanError>) -> Result<(), LoadPlanError> {
    match e {
        Some(e) => Err(e),
        None => Ok(()),
    }
}

/// Regions `a` and `b` share no address.
spec fn regions_disjoint(a: RegionView, b: RegionView) -> bool {
    a.0 + a.1 <= b.0 || b.0 + b.1 <= a.0
}

/// Region `r` alone is acceptable: page-aligned start, a non-zero whole
/// number of pages, not both writable and executable, and an end that fits.
spec fn region_sound(r: RegionView) -> bool {
    &&& r.0 % 4096 == 0 && r.1 != 0 && r.1 % 4096 == 0
    &&& !(r.3 & 2 != 0 && r.3 & 4 != 0)
    &&& r.0 + r.1 <= u64::MAX
}

proof fn lemma_pair_error_none(rs: Seq<RegionView>, i: int, j: int)
    requires
        0 <= i < rs.len(),
        0 <= j,
        rs[i].0 + rs[i].1 <= u64::MAX,
    ensures
        lr_pair_error_from(rs, i, j) is None <==> forall|k: int|
            j <= k < rs.len() ==> #[trigger] rs[k].0 + rs[k].1 <= u64::MAX && regions_disjoint(rs[i], rs[k]),
    decreases rs.len() - j,
{
    if j < rs.len() {
        lemma_pair_error_none(rs, i, j + 1);
        if lr_pair_error_from(rs, i, j) is None {
            assert forall|k: int| j <= k < rs.len() implies #[trigger] rs[k].0 + rs[k].1 <= u64::MAX && regions_disjoint(
                rs[i],
                rs[k],
            ) by {
                if k > j {
                    assert(j + 1 <= k < rs.len());
                }
            }
        } else {
            if forall|k: int| j <= k < rs.len() ==> #[trigger] rs[k].0 + rs[k].1 <= u64::MAX && regions_disjoint(rs[i], rs[k]) {
                assert(rs[j].0 + rs[j].1 <= u64::MAX && regions_disjoint(rs[i], rs[j]));
                assert forall|k: int| j + 1 <= k < rs.len() implies #[trigger] rs[k].0 + rs[k].1 <= u64::MAX && regions_disjoint(
                    rs[i],
                    rs[k],
                ) by {
                    assert(j <= k < rs.len());
                }
            }
        }
    }
}

proof fn lemma_error_from_none(rs: Seq<RegionView>, i: int)
    requires
        0 <= i,
    ensures
        lr_error_from(rs, i) is None <==> (forall|k: int| i <= k < rs.len() ==> #[trigger] region_sound(rs[k])) && (forall|
            a: int,
            b: int,
        | i <= a < b < rs.len() ==> #[trigger] regions_disjoint(rs[a], rs[b])),
    decreases rs.len() - i,
{
    if i < rs.len() {
        lemma_error_from_none(rs, i + 1);
        let r = rs[i];
        assert(lr_error(r) is None <==> region_sound(r));
        if lr_error(r) is None {
            lemma_pair_error_none(rs, i, i + 1);
        }
        if lr_error_from(rs, i) is None {
            assert forall|k: int| i <= k < rs.len() implies #[trigger] region_sound(rs[k]) by {
                if k > i {
                    assert(i + 1 <= k < rs.len());
                }
            }
            assert forall|a: int, b: int| i <= a < b < rs.len() implies #[trigger] regions_disjoint(rs[a], rs[b]) by {
                if a == i {
                    assert(i + 1 <= b < rs.len());
                    assert(rs[b].0 + rs[b].1 <= u64::MAX && regions_disjoint(rs[i], rs[b]));
                } else {
                    assert(i + 1 <= a < b < rs.len());
                }
            }
        } else if (forall|k: int| i <= k < rs.len() ==> #[trigger] region_sound(rs[k])) && (forall|a: int, b: int|
            i <= a < b < rs.len() ==> #[trigger] regions_disjoint(rs[a], rs[b])) {
            assert(region_sound(rs[i]));
            assert forall|k: int| i + 1 <= k < rs.len() implies #[trigger] rs[k].0 + rs[k].1 <= u64::MAX && regions_disjoint(
                rs[i],
                rs[k],
            ) by {
                assert(region_sound(rs[k]));
                assert(regions_disjoint(rs[i], rs[k]));
            }
            assert forall|k: int| i + 1 <= k < rs.len() implies #[trigger] region_sound(rs[k]) by {
                assert(i <= k < rs.len());
            }
            assert forall|a: int, b: int| i + 1 <= a < b < rs.len() implies #[trigger] regions_disjoint(rs[a], rs[b]) by {
                assert(i <= a < b < rs.len());
            }
        }
    }
}

/// Which region lists can be loaded: a list passes exactly when some region
/// is executable (permission bit 4), every region starts on a page, spans a
/// non-zero whole number of pages, is not both writable (bit 2) and
/// executable, and ends within the address space, and no two regions share
/// an address. A list with no executable region is refused as missing one.
pub proof fn lemma_loadable_regions(rs: Seq<RegionView>)
    ensures
        check_result(load_regions_error(rs)) is Ok <==> {
            &&& exists|i: int| 0 <= i < rs.len() && #[trigger] rs[i].3 & 4 != 0
            &&& forall|i: int|
                #![trigger rs[i]]
                0 <= i < rs.len() ==> {
                    &&& rs[i].0 % 4096 == 0 && rs[i].1 != 0 && rs[i].1 % 4096 == 0
                    &&& !(rs[i].3 & 2 != 0 && rs[i].3 & 4 != 0)
                    &&& rs[i].0 + rs[i].1 <= u64::MAX
                }
            &&& forall|i: int, j: int|
                0 <= i < j < rs.len() ==> #[trigger] rs[i].0 + rs[i].1 <= #[trigger] rs[j].0 || rs[j].0 + rs[j].1 <= rs[i].0
        },
        (forall|i: int| 0 <= i < rs.len() ==> #[trigger] rs[i].3 & 4 == 0) ==> check_result(load_regions_error(rs))
            == Err::<(), LoadPlanError>(LoadPlanError::MissingExecutableSegment),
{
    lemma_error_from_none(rs, 0);
    if exists|i: int| 0 <= i < rs.len() && #[trigger] rs[i].3 & 4 != 0 {
        let i = choose|i: int| 0 <= i < rs.len() && #[trigger] rs[i].3 & 4 != 0;
        assert(rv_exec(rs[i]));
    }
    if exists|i: int| 0 <= i < rs.len() && rv_exec(#[trigger] rs[i]) {
        let i = choose|i: int| 0 <= i < rs.len() && rv_exec(#[trigger] rs[i]);
        assert(rs[i].3 & 4 != 0);
    }
    assert((forall|i: int| 0 <= i < rs.len() ==> #[trigger] region_sound(rs[i])) <==> (forall|i: int|
        #![trigger rs[i]]
        0 <= i < rs.len() ==> {
            &&& rs[i].0 % 4096 == 0 && rs[i].1 != 0 && rs[i].1 % 4096 == 0
            &&& !(rs[i].3 & 2 != 0 && rs[i].3 & 4 != 0)
            &&& rs[i].0 + rs[i].1 <= u64::MAX
        })) by {
        if forall|i: int| 0 <= i < rs.len() ==> #[trigger] region_sound(rs[i]) {
            assert forall|i: int| #![trigger rs[i]] 0 <= i < rs.len() implies {
                &&& rs[i].0 % 4096 == 0 && rs[i].1 != 0 && rs[i].1 % 4096 == 0
                &&& !(rs[i].3 & 2 != 0 && rs[i].3 & 4 != 0)
                &&& rs[i].0 + rs[i].1 <= u64::MAX
            } by {
                assert(region_sound(rs[i]));
            }
        }
    }
    assert((forall|a: int, b: int| 0 <= a < b < rs.len() ==> #[trigger] regions_disjoint(rs[a], rs[b])) <==> (forall|
        i: int,
        j: int,
    | 0 <= i < j < rs.len() ==> #[trigger] rs[i].0 + rs[i].1 <= #[trigger] rs[j].0 || rs[j].0 + rs[j].1 <= rs[i].0)) by {
        if forall|a: int, b: int| 0 <= a < b < rs.len() ==> #[trigger] regions_disjoint(rs[a], rs[b]) {
            assert forall|i: int, j: int| 0 <= i < j < rs.len() implies #[trigger] rs[i].0 + rs[i].1 <= #[trigger] rs[j].0
                || rs[j].0 + rs[j].1 <= rs[i].0 by {
                assert(regions_disjoint(rs[i], rs[j]));
            }
        }
        if forall|i: int, j: int|
            0 <= i < j < rs.len() ==> #[trigger] rs[i].0 + rs[i].1 <= #[trigger] rs[j].0 || rs[j].0 + rs[j].1 <= rs[i].0 {
            assert forall|a: int, b: int| 0 <= a < b < rs.len() implies #[trigger] regions_disjoint(rs[a], rs[b]) by {
                assert(rs[a].0 + rs[a].1 <= rs[b].0 || rs[b].0 + rs[b].1 <= rs[a].0);
            }
        }
    }
}

pub fn validate_regions(regions: &[LoadRegion]) -> (r: Result<(), LoadPlanError>)
    ensures
        r == check_result(load_regions_error(regions@.map_values(|x: LoadRegion| region_view(x)))),
{
    let ghost rs = regions@.map_values(|x: LoadRegion| region_view(x));
    let n = regions.len();
    let mut found = false;
    let mut k: usize = 0;
    while k < n
        invariant
            n == regions@.len(),
            rs == regions@.map_values(|x: LoadRegion| region_view(x)),
            k <= n,
            found <==> exists|i: int| 0 <= i < k && rv_exec(#[trigger] rs[i]),
        decreases n - k,
    {
        if regions[k].permissions.executable() {
            assert(rv_exec(rs[k as int]));
            found = true;
        }
        k += 1;
    }
    if !found {
        return Err(LoadPlanError::MissingExecutableSegment);
    }
    let mut index: usize = 0;
    while index < n
        invariant
            n == regions@.len(),
            rs == regions@.map_values(|x: LoadRegion| region_view(x)),
            index <= n,
            load_regions_error(rs) == lr_error_from(rs, 0),
            lr_error_from(rs, 0) == lr_error_from(rs, index as int),
        decreases n - index,
    {
        let region = &regions[index];
        assert(rs[index as int] == region_view(*region));
        if region.start % 4096 != 0 || region.size == 0 || region.size % 4096 != 0 {
            return Err(LoadPlanError::InvalidAlignment);
        }
        if region.permissions.writable() && region.permissions.executable() {
            return Err(LoadPlanError::WritableExecutable);
        }
        let end = match region.start.checked_add(region.size as u64) {
            Some(e) => e,
            None => return Err(LoadPlanError::InvalidBounds),
        };
        let mut j: usize = index + 1;
        while j < n
            invariant
                n == regions@.len(),
                rs == regions@.map_values(|x: LoadRegion| region_view(x)),
                index < n,
                index + 1 <= j <= n,
                end == rv_end(rs[index as int]),
                load_regions_error(rs) == lr_error_from(rs, 0),
                lr_error_from(rs, 0) == lr_error_from(rs, index as int),
                lr_error(rs[index as int]) is None,
                lr_pair_error_from(rs, index as int, index + 1) == lr_pair_error_from(
                    rs,
                    index as int,
                    j as int,
                ),
            decreases n - j,
        {
            assert(rs[j as int] == region_view(regions@[j as int]));
            assert(rs[index as int] == region_view(regions@[index as int]));
            let other_end = match regions[j].start.checked_add(regions[j].size as u64) {
                Some(e) => e,
                None => return Err(LoadPlanError::InvalidBounds),
            };
            if regions[index].start < other_end && regions[j].start < end {
                return Err(LoadPlanError::Overlap);
            }
            j += 1;
        }
        index += 1;
    }
    Ok(())
}

fn pages_for_size(size: usize) -> (r: Result<usize, LoadPlanError>)
    ensures
        size == 0 ==> r == Err::<usize, LoadPlanError>(LoadPlanError::InvalidBounds),
        size != 0 ==> r == Ok::<usize, LoadPlanError>(((size + 4095) / 4096) as usize),
{
    if size == 0 {
        return Err(LoadPlanError::InvalidBounds);
    }
    Ok((size - 1) / PAGE_SIZE + 1)
}

fn align_down(value: u64, align: u64) -> (r: u64)
    requires
        align == 4096,
    ensures
        r == align_down_spec(value as int),
{
    value / align * align
}

fn align_up(value: u64, align: u64) -> (r: Result<u64, LoadPlanError>)
    requires
        align == 4096,
    ensures
        value + 4095 > u64::MAX ==> r == Err::<u64, LoadPlanError>(LoadPlanError::InvalidBounds),
        value + 4095 <= u64::MAX ==> r == Ok::<u64, LoadPlanError>(
            align_up_spec(value as int) as u64,
        ),
{
    match value.checked_add(align - 1) {
        Some(v) => Ok(v / align * align),
        None => Err(LoadPlanError::InvalidBounds),
    }
}

/// The sum of the page counts of `rs`.
pub open spec fn total_pages_spec(rs: Seq<RegionView>) -> int
    decreases rs.len(),
{
    if rs.len() == 0 {
        0
    } else {
        total_pages_spec(rs.drop_last()) + rs.last().2
    }
}

pub open spec fn entry_in_exec_region(rs: Seq<RegionView>, entry: u64) -> bool {
    exists|i: int|
        0 <= i < rs.len() && rv_exec(#[trigger] rs[i]) && rs[i].0 <= entry < rv_end(rs[i])
}

/// What `build_load_plan` decides for an image: the regions and page total,
/// or the first error.
pub open spec fn plan_result(image: ExecutableImage) -> Result<(Seq<RegionView>, int), LoadPlanError> {
    if image.format != ExecutableFormat::Elf64 {
        Err(LoadPlanError::UnsupportedFormat)
    } else if image.segments@.len() > MAX_LOAD_REGIONS {
        Err(LoadPlanError::BudgetExceeded)
    } else {
        match regions_upto(image.segments@, image.segments@.len()) {
            Err(e) => Err(e),
            Ok(rs) => match load_regions_error(rs) {
                Some(e) => Err(e),
                None => {
                    let total = total_pages_spec(rs);
                    if total + STACK_RESERVATION_PAGES > MAX_IMAGE_PAGES {
                        Err(LoadPlanError::BudgetExceeded)
                    } else if !entry_in_exec_region(rs, image.entry_point) {
                        Err(LoadPlanError::EntryOutsideExecutableSegment)
                    } else {
                        Ok((rs, total))
                    }
                },
            },
        }
    }
}

proof fn lemma_regions_err_persists(segs: Seq<ImageSegment>, k: nat, k2: nat)
    requires
        k <= k2,
        regions_upto(segs, k) is Err,
    ensures
        regions_upto(segs, k2) == regions_upto(segs, k),
    decreases k2 - k,
{
    if k2 > k {
        lemma_regions_err_persists(segs, k, (k2 - 1) as nat);
    }
}

pub fn build_load_plan(image: &ExecutableImage) -> (r: Result<LoadPlan, LoadPlanError>)
    ensures
        plan_result(*image) is Err ==> r == Err::<LoadPlan, LoadPlanError>(
            plan_result(*image)->Err_0,
        ),
        plan_result(*image) is Ok ==> r is Ok && {
            let plan = r->Ok_0;
            &&& plan.regions@.map_values(|x: LoadRegion| region_view(x)) == plan_result(
                *image,
            )->Ok_0.0
            &&& plan.total_pages == plan_result(*image)->Ok_0.1
            &&& plan.stack_pages == STACK_RESERVATION_PAGES
            &&& plan.entry_point == image.entry_point
            &&& plan.image_name@ == image.name@
            &&& plan.source_path@ == image.source_path@
        },
{
    if image.format != ExecutableFormat::Elf64 {
        return Err(LoadPlanError::UnsupportedFormat);
    }
    if image.segments.len() > MAX_LOAD_REGIONS {
        return Err(LoadPlanError::BudgetExceeded);
    }
    let ghost segs = image.segments@;
    let n = image.segments.len();
    let mut regions: Vec<LoadRegion> = Vec::new();
    let mut i: usize = 0;
    while i < n
        invariant
            segs == image.segments@,
            n == segs.len(),
            image.format == ExecutableFormat::Elf64,
            n <= MAX_LOAD_REGIONS,
            i <= n,
            regions_upto(segs, i as nat) is Ok,
            regions@.map_values(|x: LoadRegion| region_view(x)) == regions_upto(
                segs,
                i as nat,
            )->Ok_0,
            forall|k: int|
                0 <= k < regions@.len() ==> #[trigger] regions@[k].start + regions@[k].size
                    <= u64::MAX,
            forall|k: int| 0 <= k < regions@.len() ==> #[trigger] regions@[k].page_count <= usize::MAX / 8,
            regions@.len() == i,
        decreases n - i,
    {
        let segment = &image.segments[i];
        let ghost before = regions@;
        assert(regions_upto(segs, (i + 1) as nat) == match regions_upto(segs, i as nat) {
            Err(e) => Err(e),
            Ok(rs) => match segment_region(segs[i as int]) {
                Err(e) => Err(e),
                Ok(r) => Ok(rs.push(r)),
            },
        });
        let permissions = permissions_from_flags(segment.flags);
        if permissions.writable() && permissions.executable() {
            proof {
                assert(segs[i as int] == *segment);
                assert(segment_region(segs[i as int]) is Err);
                assert(regions_upto(segs, (i + 1) as nat) is Err);
                lemma_regions_err_persists(segs, (i + 1) as nat, n as nat);
            }
            return Err(LoadPlanError::WritableExecutable);
        }
        let start = align_down(segment.virtual_address, PAGE_SIZE as u64);
        let e = match segment.virtual_address.checked_add(segment.memory_size as u64) {
            Some(e) => e,
            None => {
                proof {
                    lemma_regions_err_persists(segs, (i + 1) as nat, n as nat);
                }
                return Err(LoadPlanError::InvalidBounds);
            },
        };
        let end = match align_up(e, PAGE_SIZE as u64) {
            Ok(v) => v,
            Err(err) => {
                proof {
                    lemma_regions_err_persists(segs, (i + 1) as nat, n as nat);
                }
                return Err(err);
            },
        };
        if end <= start || end - start > usize::MAX as u64 {
            proof {
                lemma_regions_err_persists(segs, (i + 1) as nat, n as nat);
            }
            return Err(LoadPlanError::InvalidBounds);
        }
        let size = (end - start) as usize;
        let page_count = match pages_for_size(size) {
            Ok(p) => p,
            Err(err) => return Err(err),
        };
        let mut actions: Vec<LoadAction> = Vec::new();
        actions.push(
            LoadAction::Copy {
                file_offset: segment.file_offset,
                target_address: segment.virtual_address,
                len: segment.file_size,
            },
        );
        if segment.memory_size > segment.file_size {
            actions.push(
                LoadAction::ZeroFill {
                    target_address: segment.virtual_address + segment.file_size as u64,
                    len: segment.memory_size - segment.file_size,
                },
            );
        }
        assert(actions@ == segment_actions(*segment));
        regions.push(LoadRegion { start, size, page_count, permissions, actions });
        proof {
            let target = regions_upto(segs, (i + 1) as nat)->Ok_0;
            assert(regions@.map_values(|x: LoadRegion| region_view(x)) =~= target) by {
                assert(forall|k: int| 0 <= k < before.len() ==> regions@[k] == before[k]);
            }
        }
        i += 1;
    }
    let ghost rs = regions@.map_values(|x: LoadRegion| region_view(x));
    validate_regions(regions.as_slice())?;
    let mut total_pages: usize = 0;
    let mut k: usize = 0;
    while k < regions.len()
        invariant
            rs == regions@.map_values(|x: LoadRegion| region_view(x)),
            regions@.len() <= MAX_LOAD_REGIONS,
            forall|m: int| 0 <= m < regions@.len() ==> #[trigger] regions@[m].page_count <= usize::MAX / 8,
            k <= regions@.len(),
            total_pages == total_pages_spec(rs.subrange(0, k as int)),
            total_pages <= k * (usize::MAX / 8),
        decreases regions@.len() - k,
    {
        assert(rs.subrange(0, k + 1).drop_last() =~= rs.subrange(0, k as int));
        let pc = regions[k].page_count;
        assert(total_pages + pc <= (k + 1) * (usize::MAX / 8) && (k + 1) * (usize::MAX / 8)
            <= 4 * (usize::MAX / 8)) by (nonlinear_arith)
            requires
                total_pages <= k * (usize::MAX / 8),
                pc <= usize::MAX / 8,
                k < 4,
        ;
        total_pages = total_pages + pc;
        k += 1;
    }
    assert(rs.subrange(0, regions@.len() as int) =~= rs);
    assert(total_pages <= 4 * (usize::MAX / 8)) by (nonlinear_arith)
        requires
            total_pages <= k * (usize::MAX / 8),
            k <= 4,
    ;
    if total_pages + STACK_RESERVATION_PAGES > MAX_IMAGE_PAGES {
        return Err(LoadPlanError::BudgetExceeded);
    }
    let mut inside = false;
    let mut m: usize = 0;
    while m < regions.len()
        invariant
            rs == regions@.map_values(|x: LoadRegion| region_view(x)),
            forall|q: int| 0 <= q < regions@.len() ==> #[trigger] regions@[q].start + regions@[q].size
                <= u64::MAX,
            m <= regions@.len(),
            inside <==> exists|q: int|
                0 <= q < m && rv_exec(#[trigger] rs[q]) && rs[q].0 <= image.entry_point < rv_end(
                    rs[q],
                ),
        decreases regions@.len() - m,
    {
        let region = &regions[m];
        assert(rs[m as int] == region_view(*region));
        if region.permissions.executable() && image.entry_point >= region.start
            && image.entry_point < region.start + region.size as u64 {
            inside = true;
        }
        m += 1;
    }
    if !inside {
        return Err(LoadPlanError::EntryOutsideExecutableSegment);
    }
    Ok(
        LoadPlan {
            image_name: image.name.clone(),
            source_path: image.source_path.clone(),
            entry_point: image.entry_point,
            regions,
            total_pages,
            stack_pages: STACK_RESERVATION_PAGES,
        },
    )
}

} // verus!
