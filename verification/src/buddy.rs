//! Order-0 physical frame allocator: a free list of 4 KiB frame addresses
//! that merges a freed frame with its buddy when the buddy is free.
use vstd::prelude::*;

use crate::counter::{bump, bumped};

verus! {

/// The buddy of a 4 KiB frame: the address with bit 12 flipped.
pub open spec fn buddy_of(addr: u64) -> u64 {
    addr ^ 4096u64
}

/// The allocator: free frame addresses (the last one is handed out next)
/// and the allocation, free and merge counters.
pub struct BuddyFrameAllocator {
    pub free: Vec<u64>,
    pub allocated: u64,
    pub freed: u64,
    pub merges: u64,
}

impl BuddyFrameAllocator {
    pub fn new() -> (r: Self)
        ensures
            r.free@.len() == 0,
            r.allocated == 0 && r.freed == 0 && r.merges == 0,
    {
        BuddyFrameAllocator { free: Vec::new(), allocated: 0, freed: 0, merges: 0 }
    }

    /// Hand out the most recently freed frame.
    pub fn allocate_frame(&mut self) -> (r: Option<u64>)
        ensures
            old(self).free@.len() == 0 ==> r is None && final(self).free@ == old(self).free@
                && final(self).allocated == old(self).allocated,
            old(self).free@.len() > 0 ==> r == Some(old(self).free@.last()) && final(self).free@
                == old(self).free@.drop_last() && final(self).allocated == bumped(old(self).allocated),
            final(self).freed == old(self).freed && final(self).merges == old(self).merges,
    {
        match self.free.pop() {
            Some(addr) => {
                self.allocated = bump(self.allocated);
                Some(addr)
            },
            None => None,
        }
    }

    /// Return a frame: when its buddy (the address with bit 12 flipped) is
    /// free, the first such entry is taken out and the pair goes back on the
    /// list together, lower address first, as one coalesced 8 KiB block (a
    /// merge); otherwise the frame itself goes back. Either way the free
    /// frames gain exactly `addr`.
    pub fn deallocate_frame(&mut self, addr: u64)
        ensures
            final(self).freed == bumped(old(self).freed),
            final(self).allocated == old(self).allocated,
            final(self).free@ == returned(old(self).free@, addr),
            final(self).free@.to_multiset() == old(self).free@.to_multiset().insert(addr),
            final(self).merges == (if old(self).free@.contains(buddy_of(addr)) {
                bumped(old(self).merges)
            } else {
                old(self).merges
            }),
    {
        let buddy = addr ^ 4096u64;
        let mut i: usize = 0;
        while i < self.free.len()
            invariant
                i <= self.free@.len(),
                buddy == buddy_of(addr),
                self.free@ == old(self).free@,
                self.merges == old(self).merges,
                self.freed == old(self).freed,
                self.allocated == old(self).allocated,
                forall|j: int| 0 <= j < i ==> self.free@[j] != buddy,
            decreases self.free@.len() - i,
        {
            if self.free[i] == buddy {
                proof {
                    assert(self.free@[i as int] == buddy);
                    assert(self.free@.contains(buddy));
                    lemma_index_of_first(self.free@, buddy, i as int);
                }
                self.free.remove(i);
                let (low, high) = if addr < buddy {
                    (addr, buddy)
                } else {
                    (buddy, addr)
                };
                self.free.push(low);
                self.free.push(high);
                proof {
                    let s = old(self).free@;
                    assert(self.free@ =~= s.remove(i as int).push(low).push(high));
                    assert(s.index_of_first(buddy) == Some(i as int));
                    lemma_pair_back(s, i as int, addr, buddy);
                }
                self.merges = bump(self.merges);
                self.freed = bump(self.freed);
                return;
            }
            i += 1;
        }
        assert(!old(self).free@.contains(buddy));
        self.free.push(addr);
        proof {
            old(self).free@.to_multiset_ensures();
        }
        self.freed = bump(self.freed);
    }

    pub fn free_count(&self) -> (r: usize)
        ensures
            r == self.free@.len(),
    {
        self.free.len()
    }
}

/// Taking the buddy out at `i` and putting the pair back adds just `addr`
/// to the free frames.
proof fn lemma_pair_back(s: Seq<u64>, i: int, addr: u64, buddy: u64)
    requires
        0 <= i < s.len(),
        s[i] == buddy,
    ensures
        s.remove(i).push(addr).push(buddy).to_multiset() == s.to_multiset().insert(addr),
        s.remove(i).push(buddy).push(addr).to_multiset() == s.to_multiset().insert(addr),
{
    broadcast use vstd::multiset::group_multiset_axioms;
    s.to_multiset_ensures();
    let r = s.remove(i);
    r.to_multiset_ensures();
    r.push(addr).to_multiset_ensures();
    r.push(buddy).to_multiset_ensures();
    assert(s.to_multiset().count(buddy) > 0);
    assert(r.push(addr).push(buddy).to_multiset() =~= s.to_multiset().insert(addr));
    assert(r.push(buddy).push(addr).to_multiset() =~= s.to_multiset().insert(addr));
}

/// The first position of a value in a sequence.
proof fn lemma_index_of_first(s: Seq<u64>, v: u64, i: int)
    requires
        0 <= i < s.len(),
        s[i] == v,
        forall|j: int| 0 <= j < i ==> s[j] != v,
    ensures
        s.index_of_first(v) == Some(i),
{
    s.index_of_first_ensures(v);
    assert(s.contains(v));
    let k = s.index_of_first(v)->Some_0;
    if k < i {
        assert(s[k] == v);
    } else if k > i {
        assert(s[i] != v);
    }
}

/// (frames allocated, frames freed, merges, free frames).
pub fn status(a: &BuddyFrameAllocator) -> (r: (u64, u64, u64, usize))
    ensures
        r == (a.allocated, a.freed, a.merges, a.free@.len() as usize),
{
    (a.allocated, a.freed, a.merges, a.free.len())
}

/// Allocator smoke: a frame is allocated and freed again; with no frame to
/// hand out the smoke passes only when the list was not empty (it was).
pub fn smoke_buddy_allocator(a: &mut BuddyFrameAllocator) -> (r: bool)
    ensures
        old(a).free@.len() == 0 ==> !r && final(a).free@ == old(a).free@,
        old(a).free@.len() > 0 && old(a).allocated < u64::MAX && old(a).freed < u64::MAX ==> r,
{
    let before = status(a);
    let frame = match a.allocate_frame() {
        Some(f) => f,
        None => return before.3 > 0,
    };
    a.deallocate_frame(frame);
    let after = status(a);
    after.0 > before.0 && after.1 > before.1
}

/// The free list once frame `addr` is returned to `free`: a free buddy is
/// taken out and the pair goes to the end, lower address first.
pub open spec fn returned(free: Seq<u64>, addr: u64) -> Seq<u64> {
    if free.contains(buddy_of(addr)) {
        let b = buddy_of(addr);
        let rest = free.remove(free.index_of_first(b)->Some_0);
        if addr < b {
            rest.push(addr).push(b)
        } else {
            rest.push(b).push(addr)
        }
    } else {
        free.push(addr)
    }
}

/// Whether `k` rounds of taking a frame and giving it straight back all find
/// a frame, starting from free list `free`.
pub open spec fn cycles_succeed(free: Seq<u64>, k: nat) -> bool
    decreases k,
{
    if k == 0 {
        true
    } else if free.len() == 0 {
        false
    } else {
        cycles_succeed(returned(free.drop_last(), free.last()), (k - 1) as nat)
    }
}

} // verus!
