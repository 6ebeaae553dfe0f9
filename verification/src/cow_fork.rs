//! Copy-on-write fork bookkeeping: how many mappings share each physical
//! frame after a fork, and the write-fault break that privatizes a shared
//! page. The page-table work is the caller's.
use crate::counter::{bump, bumped};
use std::collections::BTreeMap;
use vstd::prelude::*;

verus! {

broadcast use vstd::laws_cmp::group_laws_cmp;

pub struct CowState {
    /// Write faults resolved by a copy-on-write break.
    pub breaks: u64,
    /// Sharers of each physical frame (by frame base).
    pub refs: BTreeMap<u64, u32>,
}

impl CowState {
    pub fn new() -> (r: Self)
        ensures
            r.breaks == 0,
            r.refs@ == Map::<u64, u32>::empty(),
    {
        CowState { breaks: 0, refs: BTreeMap::new() }
    }
}

/// The base of the page or frame holding `addr`.
pub open spec fn page_of(addr: u64) -> u64 {
    addr & !0xfffu64
}

/// Sharers recorded for frame `k`.
pub open spec fn ref_count(m: Map<u64, u32>, k: u64) -> u32 {
    if m.contains_key(k) {
        m[k]
    } else {
        0
    }
}

pub fn pf_break_status(st: &CowState) -> (r: u64)
    ensures
        r == st.breaks,
{
    st.breaks
}

fn count_of(st: &CowState, k: u64) -> (r: u32)
    ensures
        r == ref_count(st.refs@, k),
{
    match st.refs.get(&k) {
        Some(c) => *c,
        None => 0,
    }
}

/// Whether the frame behind a page (its translation, `None` when unmapped)
/// is shared copy-on-write.
pub fn is_page_cow_shared(st: &CowState, phys: Option<u64>) -> (r: bool)
    ensures
        r == (phys matches Some(p) && ref_count(st.refs@, page_of(p)) > 0),
{
    match phys {
        Some(p) => count_of(st, p & !0xfffu64) > 0,
        None => false,
    }
}

/// The sharer map once the pages `pages` (address, writable in the parent,
/// translation) from `k` on are shared: each writable, mapped page adds two
/// sharers (parent and child) to its frame (the count wraps at 2^32).
pub open spec fn shared_refs(m: Map<u64, u32>, pages: Seq<(u64, bool, Option<u64>)>, k: int) -> Map<u64, u32>
    decreases pages.len() - k,
{
    if k < 0 || k >= pages.len() {
        m
    } else {
        let (_, writable, phys) = pages[k];
        let m2 = if writable && phys is Some {
            let base = page_of(phys->Some_0);
            m.insert(base, vstd::wrapping::u32_specs::wrapping_add(ref_count(m, base), 2))
        } else {
            m
        };
        shared_refs(m2, pages, k + 1)
    }
}

/// The pages to make read-only in parent and child: the writable, mapped ones.
pub open spec fn pages_to_protect(pages: Seq<(u64, bool, Option<u64>)>) -> Seq<u64> {
    pages.filter(|p: (u64, bool, Option<u64>)| p.1 && p.2 is Some).map_values(|p: (u64, bool, Option<u64>)| p.0)
}

/// After a fork duplicated an address space, marks the frames behind the
/// parent's writable pages as shared by both. `pages` holds, for each page of
/// the range, its address, whether the parent maps it writable and its
/// translation. Returns the pages the caller makes read-only in both.
pub fn share_after_fork(st: &mut CowState, pages: &[(u64, bool, Option<u64>)]) -> (r: Vec<u64>)
    ensures
        final(st).refs@ == shared_refs(old(st).refs@, pages@, 0),
        final(st).breaks == old(st).breaks,
        r@ == pages_to_protect(pages@),
{
    let ghost m0 = st.refs@;
    let mut out: Vec<u64> = Vec::new();
    let mut i: usize = 0;
    while i < pages.len()
        invariant
            i <= pages@.len(),
            shared_refs(m0, pages@, 0) == shared_refs(st.refs@, pages@, i as int),
            out@ == pages_to_protect(pages@.subrange(0, i as int)),
            st.breaks == old(st).breaks,
        decreases pages@.len() - i,
    {
        let (addr, writable, phys) = pages[i];
        proof {
            let f = |p: (u64, bool, Option<u64>)| p.1 && p.2 is Some;
            pages@.subrange(0, i as int).lemma_filter_push(pages@[i as int], f);
            assert(pages@.subrange(0, i + 1) =~= pages@.subrange(0, i as int).push(pages@[i as int]));
        }
        if writable {
            match phys {
                Some(p) => {
                    let base = p & !0xfffu64;
                    let c = count_of(st, base);
                    st.refs.insert(base, c.wrapping_add(2));
                    out.push(addr);
                },
                None => {},
            }
        }
        i += 1;
    }
    assert(pages@.subrange(0, pages@.len() as int) =~= pages@);
    out
}

/// One sharer of frame `k` fewer; the frame is forgotten at zero.
pub open spec fn privatized(m: Map<u64, u32>, k: u64) -> Map<u64, u32> {
    if !m.contains_key(k) {
        m
    } else if m[k] <= 1 {
        m.remove(k)
    } else {
        m.insert(k, (m[k] - 1) as u32)
    }
}

fn note_privatized(st: &mut CowState, old_phys: u64)
    ensures
        final(st).refs@ == privatized(old(st).refs@, page_of(old_phys)),
        final(st).breaks == old(st).breaks,
{
    let k = old_phys & !0xfffu64;
    match st.refs.get(&k) {
        Some(c) => {
            let n = if *c == 0 { 0 } else { *c - 1 };
            if n == 0 {
                st.refs.remove(&k);
            } else {
                st.refs.insert(k, n);
            }
        },
        None => {},
    }
}

/// Handles a user write fault on a page whose translation is `phys`: when the
/// frame is shared copy-on-write, `privatize` gives the faulting address space
/// its own copy; on success the frame loses a sharer and the break is counted.
pub fn try_break_on_write(st: &mut CowState, phys: Option<u64>, privatize: impl FnOnce() -> bool) -> (r: bool)
    requires
        privatize.requires(()),
    ensures
        !(phys matches Some(p) && ref_count(old(st).refs@, page_of(p)) > 0) ==> !r && final(st).refs@ == old(st).refs@
            && final(st).breaks == old(st).breaks,
        r ==> (phys matches Some(p) && ref_count(old(st).refs@, page_of(p)) > 0
            && final(st).refs@ == privatized(old(st).refs@, page_of(p))) && final(st).breaks == bumped(old(st).breaks),
        !r ==> final(st).refs@ == old(st).refs@ && final(st).breaks == old(st).breaks,
        phys matches Some(p) && ref_count(old(st).refs@, page_of(p)) > 0 ==> exists|ok: bool|
            call_ensures(privatize, (), ok) && r == ok,
{
    let p = match phys {
        Some(p) => p,
        None => {
            return false;
        },
    };
    let base = p & !0xfffu64;
    if count_of(st, base) == 0 {
        return false;
    }
    let copied = privatize();
    assert(call_ensures(privatize, (), copied));
    if !copied {
        return false;
    }
    note_privatized(st, base);
    proof {
        assert(page_of(base) == base) by (bit_vector)
            requires base == p & !0xfffu64;
    }
    st.breaks = bump(st.breaks);
    true
}

} // verus!
