//! Demand paging decisions: which user page faults are served by a fresh zero
//! page (stack growth) or by a page of the registered file, and the counters
//! of each outcome. The page-table work is the caller's.
use crate::counter::{bump, bumped};
use vstd::prelude::*;

verus! {

pub const USER_GROW_BASE: u64 = 0x401000;
pub const USER_GROW_LIMIT: u64 = 0x500000;
pub const FILE_DEMAND_BASE: u64 = 0x500000;
pub const FILE_DEMAND_LIMIT: u64 = 0x510000;
pub const PAGE_SIZE: u64 = 0x1000;

pub struct DemandState {
    pub faults: u64,
    pub mapped: u64,
    pub rejected: u64,
    pub file_faults: u64,
    pub file_loaded: u64,
    pub file_rejected: u64,
    /// The file whose pages back the file window, once registered.
    pub file_path: Option<Vec<u8>>,
}

impl DemandState {
    pub fn new() -> (r: Self)
        ensures
            r.faults == 0 && r.mapped == 0 && r.rejected == 0,
            r.file_faults == 0 && r.file_loaded == 0 && r.file_rejected == 0,
            r.file_path is None,
    {
        DemandState { faults: 0, mapped: 0, rejected: 0, file_faults: 0, file_loaded: 0, file_rejected: 0, file_path: None }
    }
}

pub fn status(st: &DemandState) -> (r: (u64, u64, u64))
    ensures
        r == (st.faults, st.mapped, st.rejected),
{
    (st.faults, st.mapped, st.rejected)
}

pub fn file_status(st: &DemandState) -> (r: (u64, u64, u64))
    ensures
        r == (st.file_faults, st.file_loaded, st.file_rejected),
{
    (st.file_faults, st.file_loaded, st.file_rejected)
}

/// Registers the file whose pages back the file window.
pub fn register_file_backed_region(st: &mut DemandState, path: &[u8])
    ensures
        final(st).file_path matches Some(p) && p@ == path@,
        final(st).faults == old(st).faults && final(st).mapped == old(st).mapped && final(st).rejected == old(st).rejected,
        final(st).file_faults == old(st).file_faults && final(st).file_loaded == old(st).file_loaded
            && final(st).file_rejected == old(st).file_rejected,
{
    st.file_path = Some(crate::bytes::copy_bytes(path));
}

/// What to do about a page fault.
#[derive(Clone, Copy, Debug, PartialEq, Eq, Structural)]
pub enum FaultAction {
    /// Not a fault that demand paging serves.
    Reject,
    /// Load the file page holding the address.
    FilePage,
    /// Map a zero page at this page base in the active user address space.
    ZeroFill(u64),
}

/// The page that holds `addr`.
pub open spec fn page_of(addr: u64) -> u64 {
    addr & !0xfffu64
}

/// The action for a fault at `fault_addr`: only user-mode faults on absent
/// pages are served; the file window goes to the file, the stack-growth window
/// gets a zero page when a user address space is active (`cr3` non-zero).
pub open spec fn fault_action(fault_addr: u64, user_mode: bool, protection_violation: bool, cr3: u64) -> FaultAction {
    if !user_mode || protection_violation {
        FaultAction::Reject
    } else if FILE_DEMAND_BASE <= fault_addr < FILE_DEMAND_LIMIT {
        FaultAction::FilePage
    } else if fault_addr < USER_GROW_BASE || fault_addr >= USER_GROW_LIMIT || cr3 == 0 {
        FaultAction::Reject
    } else {
        FaultAction::ZeroFill(page_of(fault_addr))
    }
}

/// Which page faults are served and how: only a user-mode fault on an
/// absent page is served; one in the file window `[0x500000, 0x510000)`
/// loads the file page, one in the stack-growth window
/// `[0x401000, 0x500000)` gets a zero page at its page base when a user
/// address space is active, and every other fault is refused.
pub proof fn lemma_fault_windows(fault_addr: u64, user_mode: bool, protection_violation: bool, cr3: u64)
    ensures
        fault_action(fault_addr, user_mode, protection_violation, cr3) is FilePage <==> (user_mode
            && !protection_violation && 0x500000 <= fault_addr < 0x510000),
        fault_action(fault_addr, user_mode, protection_violation, cr3) is ZeroFill <==> (user_mode
            && !protection_violation && 0x401000 <= fault_addr < 0x500000 && cr3 != 0),
        fault_action(fault_addr, user_mode, protection_violation, cr3) matches FaultAction::ZeroFill(p) ==> p
            == fault_addr & !0xfffu64,
        fault_action(fault_addr, user_mode, protection_violation, cr3) is Reject <==> !(user_mode && !protection_violation
            && (0x500000 <= fault_addr < 0x510000 || (0x401000 <= fault_addr < 0x500000 && cr3 != 0))),
{
}

/// Decides a page fault and counts it: a rejected fault counts as rejected,
/// a stack-growth fault in the window counts as a fault (and as rejected too
/// when no user address space is active). A zero-fill is finished with
/// `record_zero_fill`, a file page with `plan_file_page`.
pub fn handle_page_fault(st: &mut DemandState, fault_addr: u64, user_mode: bool, protection_violation: bool, cr3: u64) -> (r: FaultAction)
    ensures
        r == fault_action(fault_addr, user_mode, protection_violation, cr3),
        final(st).faults == (if user_mode && !protection_violation && !(FILE_DEMAND_BASE <= fault_addr < FILE_DEMAND_LIMIT)
            && USER_GROW_BASE <= fault_addr < USER_GROW_LIMIT { bumped(old(st).faults) } else { old(st).faults }),
        final(st).rejected == (if r == FaultAction::Reject { bumped(old(st).rejected) } else { old(st).rejected }),
        final(st).mapped == old(st).mapped,
        final(st).file_faults == old(st).file_faults && final(st).file_loaded == old(st).file_loaded
            && final(st).file_rejected == old(st).file_rejected && final(st).file_path == old(st).file_path,
{
    if !user_mode || protection_violation {
        st.rejected = bump(st.rejected);
        return FaultAction::Reject;
    }
    if fault_addr >= FILE_DEMAND_BASE && fault_addr < FILE_DEMAND_LIMIT {
        return FaultAction::FilePage;
    }
    if fault_addr < USER_GROW_BASE || fault_addr >= USER_GROW_LIMIT {
        st.rejected = bump(st.rejected);
        return FaultAction::Reject;
    }
    st.faults = bump(st.faults);
    let page_base = fault_addr & !0xfffu64;
    if cr3 == 0 {
        st.rejected = bump(st.rejected);
        return FaultAction::Reject;
    }
    FaultAction::ZeroFill(page_base)
}

/// Counts the outcome of mapping a zero page.
pub fn record_zero_fill(st: &mut DemandState, mapped: bool)
    ensures
        final(st).mapped == (if mapped { bumped(old(st).mapped) } else { old(st).mapped }),
        final(st).rejected == (if mapped { old(st).rejected } else { bumped(old(st).rejected) }),
        final(st).faults == old(st).faults,
        final(st).file_faults == old(st).file_faults && final(st).file_loaded == old(st).file_loaded
            && final(st).file_rejected == old(st).file_rejected && final(st).file_path == old(st).file_path,
{
    if mapped {
        st.mapped = bump(st.mapped);
    } else {
        st.rejected = bump(st.rejected);
    }
}

/// The bytes of page `index` of a file with content `contents`: up to 4096
/// bytes from offset `index * 4096`, or `None` when the offset is at or past
/// the end.
pub open spec fn file_page_bytes(contents: Seq<u8>, index: int) -> Option<Seq<u8>> {
    let offset = index * 4096;
    if offset >= contents.len() {
        None
    } else {
        let end = if offset + 4096 < contents.len() { offset + 4096 } else { contents.len() as int };
        Some(contents.subrange(offset, end))
    }
}

/// Plans a file-backed fault at `fault_addr` (in the file window) for address
/// space `cr3`, given the registered file's content as read from storage
/// (`None` when it could not be read): the page base to map and the bytes to
/// copy into it. Counts the fault, and a rejection when there is no plan (no
/// file registered, no address space, no content, or the page lies past the
/// end of the file).
pub fn plan_file_page(st: &mut DemandState, cr3: u64, fault_addr: u64, contents: Option<&[u8]>) -> (r: Option<(u64, Vec<u8>)>)
    requires
        FILE_DEMAND_BASE <= fault_addr < FILE_DEMAND_LIMIT,
    ensures
        final(st).file_faults == bumped(old(st).file_faults),
        (old(st).file_path is None || cr3 == 0 || contents is None) ==> r is None,
        (old(st).file_path is Some && cr3 != 0 && contents is Some) ==> ({
            let c = contents->Some_0;
            let index = (page_of(fault_addr) - FILE_DEMAND_BASE) / 4096;
            match file_page_bytes(c@, index) {
                None => r is None,
                Some(b) => (r matches Some(p) && p.0 == page_of(fault_addr) && p.1@ == b),
            }
        }),
        final(st).file_rejected == (if r is None { bumped(old(st).file_rejected) } else { old(st).file_rejected }),
        final(st).file_loaded == old(st).file_loaded,
        final(st).file_path == old(st).file_path,
        final(st).faults == old(st).faults && final(st).mapped == old(st).mapped && final(st).rejected == old(st).rejected,
{
    st.file_faults = bump(st.file_faults);
    if st.file_path.is_none() {
        st.file_rejected = bump(st.file_rejected);
        return None;
    }
    let page_base = fault_addr & !0xfffu64;
    assert(page_base <= fault_addr) by (bit_vector)
        requires page_base == fault_addr & !0xfffu64;
    assert(fault_addr >= 0x500000u64 ==> page_base >= 0x500000u64) by (bit_vector)
        requires page_base == fault_addr & !0xfffu64;
    let page_index = ((page_base - FILE_DEMAND_BASE) / 0x1000) as usize;
    if cr3 == 0 {
        st.file_rejected = bump(st.file_rejected);
        return None;
    }
    let bytes = match contents {
        Some(c) => c,
        None => {
            st.file_rejected = bump(st.file_rejected);
            return None;
        },
    };
    let offset = page_index * 4096;
    if offset >= bytes.len() {
        st.file_rejected = bump(st.file_rejected);
        return None;
    }
    let end = if bytes.len() - offset > 4096 { offset + 4096 } else { bytes.len() };
    let mut chunk: Vec<u8> = Vec::new();
    let mut i = offset;
    while i < end
        invariant
            offset <= i <= end <= bytes@.len(),
            chunk@ == bytes@.subrange(offset as int, i as int),
        decreases end - i,
    {
        chunk.push(bytes[i]);
        i += 1;
        assert(chunk@ =~= bytes@.subrange(offset as int, i as int));
    }
    Some((page_base, chunk))
}

/// Counts the outcome of loading a planned file page.
pub fn record_file_page(st: &mut DemandState, loaded: bool)
    ensures
        final(st).file_loaded == (if loaded { bumped(old(st).file_loaded) } else { old(st).file_loaded }),
        final(st).file_rejected == (if loaded { old(st).file_rejected } else { bumped(old(st).file_rejected) }),
        final(st).file_faults == old(st).file_faults && final(st).file_path == old(st).file_path,
        final(st).faults == old(st).faults && final(st).mapped == old(st).mapped && final(st).rejected == old(st).rejected,
{
    if loaded {
        st.file_loaded = bump(st.file_loaded);
    } else {
        st.file_rejected = bump(st.file_rejected);
    }
}

/// The file the demo maps into the file window.
pub open spec fn demo_file() -> Seq<u8> {
    seq![47u8, 98, 105, 110, 47, 104, 101, 108, 108, 111]
}

/// Registers `/bin/hello` as the file behind the file window and plans the
/// page for a fault at `fault_addr`, from the file's content as read from
/// storage.
pub fn try_map_file_page(st: &mut DemandState, cr3: u64, fault_addr: u64, contents: Option<&[u8]>) -> (r: Option<(u64, Vec<u8>)>)
    requires
        FILE_DEMAND_BASE <= fault_addr < FILE_DEMAND_LIMIT,
    ensures
        final(st).file_path matches Some(p) && p@ == demo_file(),
        final(st).file_faults == bumped(old(st).file_faults),
        (cr3 == 0 || contents is None) ==> r is None,
        (cr3 != 0 && contents is Some) ==> ({
            let c = contents->Some_0;
            let index = (page_of(fault_addr) - FILE_DEMAND_BASE) / 4096;
            match file_page_bytes(c@, index) {
                None => r is None,
                Some(b) => (r matches Some(p) && p.0 == page_of(fault_addr) && p.1@ == b),
            }
        }),
        final(st).file_rejected == (if r is None { bumped(old(st).file_rejected) } else { old(st).file_rejected }),
{
    let path: [u8; 10] = [47, 98, 105, 110, 47, 104, 101, 108, 108, 111];
    register_file_backed_region(st, &path);
    assert(path@ =~= demo_file());
    plan_file_page(st, cr3, fault_addr, contents)
}

/// The first page of the file window, planned from the file's content.
pub fn phase47_smoke(st: &mut DemandState, cr3: u64, contents: Option<&[u8]>) -> (r: Option<(u64, Vec<u8>)>)
    ensures
        (cr3 == 0 || contents is None) ==> r is None,
        (cr3 != 0 && contents is Some && contents->Some_0@.len() > 0) ==> (r matches Some(p) && p.0 == FILE_DEMAND_BASE
            && p.1@ == file_page_bytes(contents->Some_0@, 0)->Some_0),
        (contents is Some && contents->Some_0@.len() == 0) ==> r is None,
{
    assert(page_of(FILE_DEMAND_BASE) == FILE_DEMAND_BASE) by (bit_vector);
    try_map_file_page(st, cr3, FILE_DEMAND_BASE, contents)
}

} // verus!
