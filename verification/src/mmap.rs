//! mmap decisions: anonymous pages and read-only mappings of the one file
//! that backs the file window, unmapping, and the counters of each outcome.
//! Each request is decided in two steps: a plan (which page, or a refusal
//! that is counted at once), then, once the caller has asked the region
//! table whether the page overlaps a region of the process and has done the
//! page-table work, the outcome that is counted and answered.
use crate::bytes::str_eq;
use crate::counter::{bump, bumped};
use crate::demand_paging::{register_file_backed_region, DemandState, FILE_DEMAND_BASE};
use vstd::prelude::*;
use vstd::string::StringSliceAdditionalSpecFns;

verus! {

pub const MMAP_ANON_BASE: u64 = 0x600000;
pub const MMAP_ANON_LIMIT: u64 = 0x620000;
/// The protection bit that asks for a writable mapping.
pub const PROT_WRITE: u64 = 2;
/// The protection bit that asks for an executable mapping.
pub const PROT_EXEC: u64 = 4;
/// The length of every mapping: one page.
pub const MMAP_LEN: u64 = 0x1000;
/// The page of the file window that a file mapping gets.
pub const MMAP_FILE_PAGE: u64 = 0x501000;

/// The mmap counters and the address space of the last bring-up check.
pub struct MmapState {
    pub anon_mapped: u64,
    pub file_mapped: u64,
    pub rejected: u64,
    pub munmap_applied: u64,
    pub munmap_rejected: u64,
    pub last_cr3: u64,
}

impl MmapState {
    pub fn new() -> (r: Self)
        ensures
            r.anon_mapped == 0 && r.file_mapped == 0 && r.rejected == 0,
            r.munmap_applied == 0 && r.munmap_rejected == 0 && r.last_cr3 == 0,
    {
        MmapState { anon_mapped: 0, file_mapped: 0, rejected: 0, munmap_applied: 0, munmap_rejected: 0, last_cr3: 0 }
    }
}

/// Only the refusal counter moved, by one.
pub open spec fn counted_refusal(before: MmapState, after: MmapState) -> bool {
    after == MmapState { rejected: bumped(before.rejected), ..before }
}

/// Anonymous, file and refused mapping counts.
pub fn status(st: &MmapState) -> (r: (u64, u64, u64))
    ensures
        r == (st.anon_mapped, st.file_mapped, st.rejected),
{
    (st.anon_mapped, st.file_mapped, st.rejected)
}

/// Applied and refused unmapping counts.
pub fn munmap_status(st: &MmapState) -> (r: (u64, u64))
    ensures
        r == (st.munmap_applied, st.munmap_rejected),
{
    (st.munmap_applied, st.munmap_rejected)
}

/// The address space of the last bring-up check, if one ran.
pub fn last_mmap_cr3(st: &MmapState) -> (r: Option<u64>)
    ensures
        r == (if st.last_cr3 == 0 { None::<u64> } else { Some(st.last_cr3) }),
{
    if st.last_cr3 == 0 {
        None
    } else {
        Some(st.last_cr3)
    }
}

/// Records the address space of a bring-up check.
pub fn remember_cr3(st: &mut MmapState, cr3: u64)
    ensures
        *final(st) == (MmapState { last_cr3: cr3, ..*old(st) }),
{
    st.last_cr3 = cr3;
}

/// A mapping that is both writable and executable.
pub open spec fn write_and_exec(prot: u64) -> bool {
    prot & PROT_WRITE != 0 && prot & PROT_EXEC != 0
}

/// The page an anonymous mapping asks for: the caller's hint when it gives
/// one, else the next free page of the process's regions (`next_hint`, when
/// the process is known), else the start of the anonymous window.
pub open spec fn anon_page(hint: u64, next_hint: Option<u64>) -> u64 {
    if hint != 0 {
        hint
    } else {
        match next_hint {
            Some(h) => h,
            None => MMAP_ANON_BASE,
        }
    }
}

/// Which anonymous requests are refused: exactly those asking for a page
/// that is both writable (bit 2) and executable (bit 4); a read-execute or
/// read-write request is planned. The page planned is the caller's hint when
/// it is non-zero, else the process's next free page when it has one, else
/// the start of the anonymous window.
pub proof fn lemma_anonymous_plan(prot: u64, hint: u64, next_hint: Option<u64>)
    ensures
        write_and_exec(prot) <==> (prot & 2 != 0 && prot & 4 != 0),
        prot & 2 == 0 ==> !write_and_exec(prot),
        prot & 4 == 0 ==> !write_and_exec(prot),
        hint != 0 ==> anon_page(hint, next_hint) == hint,
        hint == 0 && next_hint is Some ==> anon_page(hint, next_hint) == next_hint->Some_0,
        hint == 0 && next_hint is None ==> anon_page(hint, next_hint) == 0x600000,
        PROT_WRITE == 2 && PROT_EXEC == 4 && MMAP_ANON_BASE == 0x600000,
{
}

/// The one file that can be mapped is `/bin/hello`, at the second page of
/// the file window, and the page an unmapped address names is the address
/// with its low 12 bits cleared.
pub proof fn lemma_file_plan(path: Seq<char>)
    ensures
        mappable_file(path) <==> path == "/bin/hello"@,
        MMAP_FILE_PAGE == 0x500000 + 0x1000,
        forall|addr: u64| #[trigger] page_base(addr) == addr & !0xfffu64,
{
}

/// Plans an anonymous page: a writable and executable request is refused
/// (and counted); otherwise the page comes from `anon_page`.
pub fn plan_anonymous(st: &mut MmapState, prot: u64, hint: u64, next_hint: Option<u64>) -> (r: Option<u64>)
    ensures
        write_and_exec(prot) ==> r is None && counted_refusal(*old(st), *final(st)),
        !write_and_exec(prot) ==> r == Some(anon_page(hint, next_hint)) && *final(st) == *old(st),
{
    let writable = (prot & PROT_WRITE) != 0;
    let executable = (prot & PROT_EXEC) != 0;
    if executable && writable {
        st.rejected = bump(st.rejected);
        return None;
    }
    if hint != 0 {
        Some(hint)
    } else {
        match next_hint {
            Some(h) => Some(h),
            None => Some(MMAP_ANON_BASE),
        }
    }
}

/// Finishes an anonymous mapping of `page`: refused (and counted) when the
/// page overlaps a region of the process or could not be mapped, else
/// counted as mapped and answered with the page.
pub fn finish_anonymous(st: &mut MmapState, page: u64, overlaps: bool, mapped: bool) -> (r: Result<u64, ()>)
    ensures
        overlaps || !mapped ==> r is Err && counted_refusal(*old(st), *final(st)),
        !overlaps && mapped ==> r == Ok::<u64, ()>(page) && *final(st) == (MmapState {
            anon_mapped: bumped(old(st).anon_mapped),
            ..*old(st)
        }),
{
    if overlaps || !mapped {
        st.rejected = bump(st.rejected);
        return Err(());
    }
    st.anon_mapped = bump(st.anon_mapped);
    Ok(page)
}

/// The one file that can be mapped.
pub open spec fn mappable_file(path: Seq<char>) -> bool {
    path == "/bin/hello"@
}

/// Plans a read-only file mapping: a writable or executable request, or any
/// file but the one that backs the file window, is refused (and counted);
/// otherwise that file is registered as the window's backing and the
/// mapping gets the window's second page.
pub fn plan_file_readonly(st: &mut MmapState, demand: &mut DemandState, path: &str, prot: u64) -> (r: Option<u64>)
    ensures
        prot & PROT_WRITE != 0 || prot & PROT_EXEC != 0 || !mappable_file(path@) ==> r is None && counted_refusal(
            *old(st),
            *final(st),
        ) && *final(demand) == *old(demand),
        prot & PROT_WRITE == 0 && prot & PROT_EXEC == 0 && mappable_file(path@) ==> {
            &&& r == Some(MMAP_FILE_PAGE)
            &&& *final(st) == *old(st)
            &&& final(demand).file_path matches Some(p) && p@ == path.spec_bytes()
            &&& final(demand).faults == old(demand).faults && final(demand).mapped == old(demand).mapped
            &&& final(demand).rejected == old(demand).rejected
            &&& final(demand).file_faults == old(demand).file_faults
            &&& final(demand).file_loaded == old(demand).file_loaded
            &&& final(demand).file_rejected == old(demand).file_rejected
        },
{
    if (prot & PROT_WRITE) != 0 || (prot & PROT_EXEC) != 0 {
        st.rejected = bump(st.rejected);
        return None;
    }
    if !str_eq(path, "/bin/hello") {
        st.rejected = bump(st.rejected);
        return None;
    }
    register_file_backed_region(demand, path.as_bytes());
    Some(FILE_DEMAND_BASE + MMAP_LEN)
}

/// Finishes a file mapping of the window page: refused (and counted) when
/// the page overlaps a region of the process, else counted as mapped.
pub fn finish_file(st: &mut MmapState, overlaps: bool) -> (r: Result<u64, ()>)
    ensures
        overlaps ==> r is Err && counted_refusal(*old(st), *final(st)),
        !overlaps ==> r == Ok::<u64, ()>(MMAP_FILE_PAGE) && *final(st) == (MmapState {
            file_mapped: bumped(old(st).file_mapped),
            ..*old(st)
        }),
{
    if overlaps {
        st.rejected = bump(st.rejected);
        return Err(());
    }
    st.file_mapped = bump(st.file_mapped);
    Ok(FILE_DEMAND_BASE + MMAP_LEN)
}

/// The page that holds `addr`.
pub open spec fn page_base(addr: u64) -> u64 {
    addr & !0xfffu64
}

/// Finishes an unmapping of `addr`: refused (and counted) when the page
/// could not be unmapped, else counted as applied and answered with the
/// page whose region the process drops.
pub fn munmap_address(st: &mut MmapState, addr: u64, unmapped: bool) -> (r: Result<u64, ()>)
    ensures
        !unmapped ==> r is Err && *final(st) == (MmapState {
            munmap_rejected: bumped(old(st).munmap_rejected),
            ..*old(st)
        }),
        unmapped ==> r == Ok::<u64, ()>(page_base(addr)) && *final(st) == (MmapState {
            munmap_applied: bumped(old(st).munmap_applied),
            ..*old(st)
        }),
{
    if !unmapped {
        st.munmap_rejected = bump(st.munmap_rejected);
        return Err(());
    }
    st.munmap_applied = bump(st.munmap_applied);
    Ok(addr & !0xfffu64)
}

} // verus!
