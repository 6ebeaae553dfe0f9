//! ELF relocations for frame-backed images: static relocations, the
//! import (GOT/PLT) relocations of dynamically linked images, and lazy PLT
//! binding. A relocation resolves to a write of a 64-bit value into the
//! frame backing its page; the writes are returned for the caller to store.
use vstd::prelude::*;

use crate::counter::{advance, advanced, bump, bumped};
use crate::frame_backing::FrameBackedImage;

verus! {

pub const R_X86_64_NONE: u32 = 0;
pub const R_X86_64_64: u32 = 1;
pub const R_X86_64_GLOB_DAT: u32 = 6;
pub const R_X86_64_JUMP_SLOT: u32 = 7;
pub const R_X86_64_RELATIVE: u32 = 8;

/// Load address assumed for an image with no pages.
pub const DEFAULT_LOAD_BASE: u64 = 0x400000;

/// Offset of the exported symbol inside the shared library image.
pub const SHARED_LIB_SYMBOL_OFFSET: u64 = 0x1000;

#[derive(Debug, Clone, Copy, PartialEq, Eq, Structural)]
pub struct StaticReloc {
    pub offset: u64,
    pub kind: u32,
    pub addend: u64,
}

/// A relocation's effect: `value` stored little-endian at `offset` within
/// the physical frame starting at `frame`.
#[derive(Debug, Clone, Copy, PartialEq, Eq, Structural)]
pub struct RelocWrite {
    pub frame: u64,
    pub offset: u64,
    pub value: u64,
}

pub struct RelocState {
    pub applied: u64,
    pub rejected: u64,
    pub dt_needed: u64,
    pub dt_linked: u64,
    pub imports: u64,
    pub imports_applied: u64,
    pub plt_slots: u64,
    pub plt_applied: u64,
    pub plt_lazy: u64,
    pub plt_bound: u64,
    pub ring3_plt_bound: u64,
    pub ring3_plt_smoke: u64,
    pub ring3_plt_fault: u64,
}

impl RelocState {
    pub fn new() -> (r: Self)
        ensures
            r.applied == 0 && r.rejected == 0 && r.dt_needed == 0 && r.dt_linked == 0,
            r.imports == 0 && r.imports_applied == 0 && r.plt_slots == 0 && r.plt_applied == 0,
            r.plt_lazy == 0 && r.plt_bound == 0 && r.ring3_plt_bound == 0 && r.ring3_plt_smoke == 0
                && r.ring3_plt_fault == 0,
    {
        RelocState {
            applied: 0,
            rejected: 0,
            dt_needed: 0,
            dt_linked: 0,
            imports: 0,
            imports_applied: 0,
            plt_slots: 0,
            plt_applied: 0,
            plt_lazy: 0,
            plt_bound: 0,
            ring3_plt_bound: 0,
            ring3_plt_smoke: 0,
            ring3_plt_fault: 0,
        }
    }
}

/// (relocations applied, relocations rejected).
pub fn status(st: &RelocState) -> (r: (u64, u64))
    ensures
        r == (st.applied, st.rejected),
{
    (st.applied, st.rejected)
}

/// (needed libraries seen, images linked, linked at least once).
pub fn dynamic_status(st: &RelocState) -> (r: (u64, u64, bool))
    ensures
        r == (st.dt_needed, st.dt_linked, st.dt_linked > 0),
{
    (st.dt_needed, st.dt_linked, st.dt_linked > 0)
}

/// (import relocation sets built, import relocations applied).
pub fn import_status(st: &RelocState) -> (r: (u64, u64))
    ensures
        r == (st.imports, st.imports_applied),
{
    (st.imports, st.imports_applied)
}

/// (PLT slots seen, PLT slots applied).
pub fn plt_status(st: &RelocState) -> (r: (u64, u64))
    ensures
        r == (st.plt_slots, st.plt_applied),
{
    (st.plt_slots, st.plt_applied)
}

/// (PLT slots left lazy, PLT slots bound later).
pub fn lazy_plt_status(st: &RelocState) -> (r: (u64, u64))
    ensures
        r == (st.plt_lazy, st.plt_bound),
{
    (st.plt_lazy, st.plt_bound)
}

pub fn ring3_plt_status(st: &RelocState) -> (r: u64)
    ensures
        r == st.ring3_plt_bound,
{
    st.ring3_plt_bound
}

/// (ring-3 PLT faults handled, ring-3 PLT slots bound).
pub fn ring3_plt_fault_status(st: &RelocState) -> (r: (u64, u64))
    ensures
        r == (st.ring3_plt_fault, st.ring3_plt_bound),
{
    (st.ring3_plt_fault, st.ring3_plt_bound)
}

/// The tag marking a dynamically linked image: `ARES` at offset 120.
pub open spec fn has_link_tag(image: Seq<u8>) -> bool {
    image.len() >= 124 && image.subrange(120, 124) == seq![65u8, 82u8, 69u8, 83u8]
}

fn link_tag(image: &[u8]) -> (r: bool)
    ensures
        r == has_link_tag(image@),
{
    if image.len() < 124 {
        return false;
    }
    let ok = image[120] == 65u8 && image[121] == 82u8 && image[122] == 69u8 && image[123] == 83u8;
    assert(ok == (image@.subrange(120, 124) =~= seq![65u8, 82u8, 69u8, 83u8]));
    ok
}

/// The library an image needs: the C stub library when it carries the
/// link tag.
pub fn parse_dt_needed(image_bytes: &[u8]) -> (r: Option<&'static str>)
    ensures
        r is Some <==> has_link_tag(image_bytes@),
        r matches Some(lib) ==> lib@ == "libc_stub"@,
{
    if link_tag(image_bytes) {
        return Some("libc_stub");
    }
    None
}

/// Count a dynamic link of an image that needs a library.
pub fn record_dynamic_link_smoke(st: &mut RelocState, image_bytes: &[u8]) -> (r: bool)
    ensures
        r == has_link_tag(image_bytes@),
        r ==> final(st).dt_needed == bumped(old(st).dt_needed) && final(st).dt_linked == bumped(old(st).dt_linked),
        !r ==> final(st).dt_needed == old(st).dt_needed && final(st).dt_linked == old(st).dt_linked,
{
    if parse_dt_needed(image_bytes).is_none() {
        return false;
    }
    st.dt_needed = bump(st.dt_needed);
    st.dt_linked = bump(st.dt_linked);
    true
}

pub open spec fn sat_add64(a: u64, b: u64) -> u64 {
    if a + b > u64::MAX {
        u64::MAX
    } else {
        (a + b) as u64
    }
}

/// The static relocations of an image loaded at `load_base`: one
/// `R_X86_64_RELATIVE` at offset 120 for a tagged image.
pub open spec fn static_relocs(image: Seq<u8>, load_base: u64) -> Seq<StaticReloc> {
    if has_link_tag(image) {
        seq![StaticReloc { offset: sat_add64(load_base, 120), kind: R_X86_64_RELATIVE, addend: load_base }]
    } else {
        Seq::empty()
    }
}

pub fn relocs_for_image(image_bytes: &[u8], load_base: u64) -> (r: Vec<StaticReloc>)
    ensures
        r@ == static_relocs(image_bytes@, load_base),
{
    let mut relocs: Vec<StaticReloc> = Vec::new();
    if link_tag(image_bytes) {
        relocs.push(StaticReloc { offset: load_base.saturating_add(120), kind: R_X86_64_RELATIVE, addend: load_base });
    }
    assert(relocs@ =~= static_relocs(image_bytes@, load_base));
    relocs
}

/// The static relocations plus, for a tagged image, a GOT entry
/// (`GLOB_DAT` at offset 128) and a PLT slot (`JUMP_SLOT` at offset 136)
/// both resolving to the library's exported symbol.
pub open spec fn import_relocs(image: Seq<u8>, load_base: u64, lib_base: u64) -> Seq<StaticReloc> {
    if has_link_tag(image) {
        static_relocs(image, load_base) + seq![
            StaticReloc { offset: sat_add64(load_base, 128), kind: R_X86_64_GLOB_DAT, addend: sat_add64(lib_base, SHARED_LIB_SYMBOL_OFFSET) },
            StaticReloc { offset: sat_add64(load_base, 136), kind: R_X86_64_JUMP_SLOT, addend: sat_add64(lib_base, SHARED_LIB_SYMBOL_OFFSET) },
        ]
    } else {
        static_relocs(image, load_base)
    }
}

pub fn import_relocs_for_image(st: &mut RelocState, image_bytes: &[u8], load_base: u64, lib_base: u64) -> (r: Vec<StaticReloc>)
    ensures
        r@ == import_relocs(image_bytes@, load_base, lib_base),
        has_link_tag(image_bytes@) ==> final(st).imports == bumped(old(st).imports) && final(st).plt_slots == bumped(old(st).plt_slots),
        !has_link_tag(image_bytes@) ==> final(st).imports == old(st).imports && final(st).plt_slots == old(st).plt_slots,
        final(st).applied == old(st).applied && final(st).rejected == old(st).rejected,
        final(st).imports_applied == old(st).imports_applied && final(st).plt_applied == old(st).plt_applied,
        final(st).plt_lazy == old(st).plt_lazy && final(st).plt_bound == old(st).plt_bound,
        final(st).ring3_plt_bound == old(st).ring3_plt_bound && final(st).ring3_plt_smoke == old(st).ring3_plt_smoke,
{
    let mut relocs = relocs_for_image(image_bytes, load_base);
    if parse_dt_needed(image_bytes).is_some() {
        let target = lib_base.saturating_add(SHARED_LIB_SYMBOL_OFFSET);
        relocs.push(StaticReloc { offset: load_base.saturating_add(128), kind: R_X86_64_GLOB_DAT, addend: target });
        relocs.push(StaticReloc { offset: load_base.saturating_add(136), kind: R_X86_64_JUMP_SLOT, addend: target });
        st.imports = bump(st.imports);
        st.plt_slots = bump(st.plt_slots);
    }
    assert(relocs@ =~= import_relocs(image_bytes@, load_base, lib_base));
    relocs
}

/// Where the image is loaded: its first region's first page, else the
/// default base.
pub open spec fn load_base_of(img: &FrameBackedImage) -> u64 {
    if img.regions@.len() > 0 && img.regions@[0].pages@.len() > 0 {
        img.regions@[0].pages@[0].virtual_address
    } else {
        DEFAULT_LOAD_BASE
    }
}

fn image_load_base(img: &FrameBackedImage) -> (r: u64)
    ensures
        r == load_base_of(img),
{
    if img.regions.len() > 0 && img.regions[0].pages.len() > 0 {
        img.regions[0].pages[0].virtual_address
    } else {
        DEFAULT_LOAD_BASE
    }
}

/// Whether some page of the image starts at `page_base`.
pub open spec fn has_page(img: &FrameBackedImage, page_base: u64) -> bool {
    exists|i: int, j: int| 0 <= i < img.regions@.len() && 0 <= j < img.regions@[i].pages@.len()
        && (#[trigger] img.regions@[i].pages@[j]).virtual_address == page_base
}

/// The frame of the first page, from index `j` on, that starts at `base`.
pub open spec fn frame_in_pages(pages: Seq<crate::frame_backing::FrameBackedPage>, base: u64, j: int) -> Option<u64>
    decreases pages.len() - j,
{
    if j < 0 || j >= pages.len() {
        None
    } else if pages[j].virtual_address == base {
        Some(pages[j].frame.start_address)
    } else {
        frame_in_pages(pages, base, j + 1)
    }
}

/// The frame of the first page, from region `i` on, that starts at `base`.
pub open spec fn frame_in_regions(regions: Seq<crate::frame_backing::FrameBackedRegion>, base: u64, i: int) -> Option<u64>
    decreases regions.len() - i,
{
    if i < 0 || i >= regions.len() {
        None
    } else {
        match frame_in_pages(regions[i].pages@, base, 0) {
            Some(f) => Some(f),
            None => frame_in_regions(regions, base, i + 1),
        }
    }
}

/// The write of `value` at address `va` of the image: into the frame of the
/// first page (in region and page order) holding `va`, at `va`'s offset in
/// that page.
pub open spec fn reloc_write(img: &FrameBackedImage, va: u64, value: u64) -> RelocWrite {
    RelocWrite { frame: frame_in_regions(img.regions@, va & !0xfffu64, 0)->Some_0, offset: va & 0xfffu64, value }
}

/// A write of `value` at `va` lands in a frame of a page that starts at
/// `va`'s page base, at `va`'s page offset.
pub open spec fn write_targets(img: &FrameBackedImage, w: RelocWrite, va: u64, value: u64) -> bool {
    &&& w.value == value
    &&& w.offset == va & 0xfffu64
    &&& exists|i: int, j: int| 0 <= i < img.regions@.len() && 0 <= j < img.regions@[i].pages@.len()
        && (#[trigger] img.regions@[i].pages@[j]).virtual_address == va & !0xfffu64
        && img.regions@[i].pages@[j].frame.start_address == w.frame
}

fn write_reloc_value(img: &FrameBackedImage, virtual_address: u64, value: u64) -> (r: Result<RelocWrite, ()>)
    ensures
        r is Ok <==> has_page(img, virtual_address & !0xfffu64),
        r is Ok <==> frame_in_regions(img.regions@, virtual_address & !0xfffu64, 0) is Some,
        r matches Ok(w) ==> write_targets(img, w, virtual_address, value) && w == reloc_write(img, virtual_address, value),
{
    let page_base = virtual_address & !0xfffu64;
    let offset = virtual_address & 0xfffu64;
    let mut i: usize = 0;
    while i < img.regions.len()
        invariant
            i <= img.regions@.len(),
            page_base == virtual_address & !0xfffu64,
            offset == virtual_address & 0xfffu64,
            forall|a: int, b: int| 0 <= a < i && 0 <= b < img.regions@[a].pages@.len() ==> (#[trigger] img.regions@[a].pages@[b]).virtual_address != page_base,
            frame_in_regions(img.regions@, page_base, 0) == frame_in_regions(img.regions@, page_base, i as int),
        decreases img.regions@.len() - i,
    {
        let mut j: usize = 0;
        while j < img.regions[i].pages.len()
            invariant
                i < img.regions@.len(),
                j <= img.regions@[i as int].pages@.len(),
                page_base == virtual_address & !0xfffu64,
                offset == virtual_address & 0xfffu64,
                forall|b: int| 0 <= b < j ==> (#[trigger] img.regions@[i as int].pages@[b]).virtual_address != page_base,
                frame_in_regions(img.regions@, page_base, 0) == frame_in_regions(img.regions@, page_base, i as int),
                frame_in_pages(img.regions@[i as int].pages@, page_base, 0) == frame_in_pages(img.regions@[i as int].pages@, page_base, j as int),
            decreases img.regions@[i as int].pages@.len() - j,
        {
            let page = img.regions[i].pages[j];
            if page.virtual_address == page_base {
                let w = RelocWrite { frame: page.frame.start_address, offset, value };
                assert(img.regions@[i as int].pages@[j as int].virtual_address == page_base);
                return Ok(w);
            }
            j += 1;
        }
        assert(frame_in_pages(img.regions@[i as int].pages@, page_base, j as int) is None);
        i += 1;
    }
    Err(())
}

/// The value a static relocation stores.
pub open spec fn static_value(r: StaticReloc, load_base: u64) -> u64 {
    if r.kind == R_X86_64_RELATIVE {
        if load_base + r.addend > u64::MAX {
            (load_base + r.addend - 0x1_0000_0000_0000_0000) as u64
        } else {
            (load_base + r.addend) as u64
        }
    } else {
        r.addend
    }
}

/// Whether every relocation is of a supported static kind and every
/// relocation that writes lands in a page of the image.
pub open spec fn statics_ok(img: &FrameBackedImage, relocs: Seq<StaticReloc>) -> bool {
    forall|k: int| 0 <= k < relocs.len() ==> {
        let r = #[trigger] relocs[k];
        &&& (r.kind == R_X86_64_NONE || r.kind == R_X86_64_64 || r.kind == R_X86_64_RELATIVE)
        &&& (r.kind != R_X86_64_NONE ==> has_page(img, r.offset & !0xfffu64))
    }
}

/// Number of relocations that write (all but `R_X86_64_NONE`).
pub open spec fn writing_count(relocs: Seq<StaticReloc>) -> nat
    decreases relocs.len(),
{
    if relocs.len() == 0 {
        0
    } else {
        writing_count(relocs.drop_last()) + if relocs.last().kind != R_X86_64_NONE { 1nat } else { 0nat }
    }
}

proof fn lemma_writing_count_bound(relocs: Seq<StaticReloc>)
    ensures
        writing_count(relocs) <= relocs.len(),
    decreases relocs.len(),
{
    if relocs.len() > 0 {
        lemma_writing_count_bound(relocs.drop_last());
    }
}

/// The writes of static relocations `relocs` for an image loaded at
/// `load_base`, in relocation order: every relocation but `NONE` stores its
/// value (`static_value`) at its offset.
pub open spec fn static_writes(img: &FrameBackedImage, relocs: Seq<StaticReloc>, load_base: u64) -> Seq<RelocWrite>
    decreases relocs.len(),
{
    if relocs.len() == 0 {
        Seq::empty()
    } else {
        let r = relocs.last();
        let before = static_writes(img, relocs.drop_last(), load_base);
        if r.kind != R_X86_64_NONE {
            before.push(reloc_write(img, r.offset, static_value(r, load_base)))
        } else {
            before
        }
    }
}

/// Apply static relocations to a frame-backed image: `NONE` is skipped,
/// `64` stores its addend, `RELATIVE` stores load base plus addend
/// (wrapping); any other kind, or a write outside the image's pages,
/// rejects the whole set. On success the writes come back in relocation
/// order together with their number.
pub fn apply_static_relocs(
    st: &mut RelocState,
    backed: &FrameBackedImage,
    image_bytes: &[u8],
    relocs: &[StaticReloc],
) -> (r: Result<(usize, Vec<RelocWrite>), ()>)
    ensures
        r is Ok <==> statics_ok(backed, relocs@),
        r is Ok ==> r->Ok_0.0 == writing_count(relocs@) && r->Ok_0.1@.len() == r->Ok_0.0
            && r->Ok_0.1@ == static_writes(backed, relocs@, load_base_of(backed))
            && final(st).applied == advanced(old(st).applied, r->Ok_0.0 as u64)
            && final(st).rejected == old(st).rejected,
        r is Err ==> final(st).rejected == bumped(old(st).rejected) && final(st).applied == old(st).applied,
        final(st).dt_needed == old(st).dt_needed && final(st).dt_linked == old(st).dt_linked,
        final(st).imports == old(st).imports && final(st).imports_applied == old(st).imports_applied,
        final(st).plt_slots == old(st).plt_slots && final(st).plt_applied == old(st).plt_applied,
        final(st).plt_lazy == old(st).plt_lazy && final(st).plt_bound == old(st).plt_bound,
{
    let load_base = image_load_base(backed);
    let mut writes: Vec<RelocWrite> = Vec::new();
    let mut applied: usize = 0;
    let mut k: usize = 0;
    while k < relocs.len()
        invariant
            k <= relocs@.len(),
            statics_ok(backed, relocs@.take(k as int)),
            applied == writing_count(relocs@.take(k as int)),
            writes@.len() == applied,
            writes@ == static_writes(backed, relocs@.take(k as int), load_base),
            load_base == load_base_of(backed),
            applied <= k,
            *st == *old(st),
        decreases relocs@.len() - k,
    {
        assert(relocs@.take(k + 1).drop_last() =~= relocs@.take(k as int));
        assert(relocs@.take(k + 1).last() == relocs@[k as int]);
        let reloc = relocs[k];
        if reloc.kind == R_X86_64_NONE {
        } else if reloc.kind == R_X86_64_64 || reloc.kind == R_X86_64_RELATIVE {
            let value = if reloc.kind == R_X86_64_RELATIVE {
                load_base.wrapping_add(reloc.addend)
            } else {
                reloc.addend
            };
            assert(value == static_value(reloc, load_base));
            match write_reloc_value(backed, reloc.offset, value) {
                Ok(w) => writes.push(w),
                Err(_) => {
                    st.rejected = bump(st.rejected);
                    assert(!statics_ok(backed, relocs@)) by {
                        assert(relocs@[k as int] == reloc);
                    }
                    return Err(());
                },
            }
            applied += 1;
        } else {
            st.rejected = bump(st.rejected);
            assert(!statics_ok(backed, relocs@)) by {
                assert(relocs@[k as int] == reloc);
            }
            return Err(());
        }
        assert forall|j: int| 0 <= j < k + 1 implies ({
            let r = #[trigger] relocs@.take(k + 1)[j];
            &&& (r.kind == R_X86_64_NONE || r.kind == R_X86_64_64 || r.kind == R_X86_64_RELATIVE)
            &&& (r.kind != R_X86_64_NONE ==> has_page(backed, r.offset & !0xfffu64))
        }) by {
            if j < k {
                assert(relocs@.take(k + 1)[j] == relocs@.take(k as int)[j]);
            }
        }
        k += 1;
    }
    assert(relocs@.take(relocs@.len() as int) =~= relocs@);
    let _ = image_bytes;
    if applied > 0 {
        st.applied = advance(st.applied, applied as u64);
    } else {
        assert(advanced(old(st).applied, 0) == old(st).applied);
    }
    Ok((applied, writes))
}

/// Apply the static relocations of an image that needs a library, counting
/// the needed library and the link; an image that needs none just gets
/// its static relocations.
pub fn apply_dynamic_needed(
    st: &mut RelocState,
    backed: &FrameBackedImage,
    image_bytes: &[u8],
    relocs: &[StaticReloc],
) -> (r: Result<(usize, Vec<RelocWrite>), ()>)
    ensures
        r is Ok <==> statics_ok(backed, relocs@),
        r is Ok ==> r->Ok_0.0 == writing_count(relocs@),
        has_link_tag(image_bytes@) ==> final(st).dt_needed == bumped(old(st).dt_needed),
        has_link_tag(image_bytes@) && r is Ok ==> final(st).dt_linked == bumped(old(st).dt_linked),
        !has_link_tag(image_bytes@) || r is Err ==> final(st).dt_linked == old(st).dt_linked,
{
    if parse_dt_needed(image_bytes).is_none() {
        return apply_static_relocs(st, backed, image_bytes, relocs);
    }
    st.dt_needed = bump(st.dt_needed);
    let applied = apply_static_relocs(st, backed, image_bytes, relocs)?;
    st.dt_linked = bump(st.dt_linked);
    Ok(applied)
}

/// Whether the import relocations that write all land in pages of the
/// image (with lazy PLT, `JUMP_SLOT`s are left unbound and need no page).
pub open spec fn imports_ok(img: &FrameBackedImage, relocs: Seq<StaticReloc>, lazy: bool) -> bool {
    forall|k: int| 0 <= k < relocs.len() && (relocs[k].kind == R_X86_64_GLOB_DAT || (relocs[k].kind == R_X86_64_JUMP_SLOT && !lazy))
        ==> has_page(img, (#[trigger] relocs[k]).offset & !0xfffu64)
}

/// How many of `relocs` are of kind `kind`.
pub open spec fn kind_count(relocs: Seq<StaticReloc>, kind: u32) -> nat
    decreases relocs.len(),
{
    if relocs.len() == 0 {
        0
    } else {
        kind_count(relocs.drop_last(), kind) + if relocs.last().kind == kind { 1nat } else { 0nat }
    }
}

/// The writes of import relocations `relocs`, in order: every GOT entry,
/// and every PLT slot unless PLT binding is lazy, stores its resolved
/// value (the addend) at its offset.
pub open spec fn import_writes(img: &FrameBackedImage, relocs: Seq<StaticReloc>, lazy: bool) -> Seq<RelocWrite>
    decreases relocs.len(),
{
    if relocs.len() == 0 {
        Seq::empty()
    } else {
        let r = relocs.last();
        let before = import_writes(img, relocs.drop_last(), lazy);
        if r.kind == R_X86_64_GLOB_DAT || (r.kind == R_X86_64_JUMP_SLOT && !lazy) {
            before.push(reloc_write(img, r.offset, r.addend))
        } else {
            before
        }
    }
}

/// The writes binding the PLT slots of `relocs`, in order.
pub open spec fn plt_writes(img: &FrameBackedImage, relocs: Seq<StaticReloc>) -> Seq<RelocWrite>
    decreases relocs.len(),
{
    if relocs.len() == 0 {
        Seq::empty()
    } else {
        let r = relocs.last();
        let before = plt_writes(img, relocs.drop_last());
        if r.kind == R_X86_64_JUMP_SLOT {
            before.push(reloc_write(img, r.offset, r.addend))
        } else {
            before
        }
    }
}

/// What binding imports does on success: the count is every GOT and PLT
/// relocation (a lazy PLT slot counts as handled), the writes are
/// `import_writes`, and the applied, PLT-applied and lazy counters advance
/// by the GOT entries and bound slots, the bound slots, and the lazy slots.
pub open spec fn imports_done(
    old_st: RelocState,
    st: RelocState,
    img: &FrameBackedImage,
    relocs: Seq<StaticReloc>,
    lazy: bool,
    count: usize,
    writes: Seq<RelocWrite>,
) -> bool {
    let got = kind_count(relocs, R_X86_64_GLOB_DAT);
    let plt = kind_count(relocs, R_X86_64_JUMP_SLOT);
    &&& count == got + plt
    &&& writes == import_writes(img, relocs, lazy)
    &&& st.imports_applied == advanced(old_st.imports_applied, (got + if lazy { 0nat } else { plt }) as u64)
    &&& st.plt_applied == advanced(old_st.plt_applied, (if lazy { 0nat } else { plt }) as u64)
    &&& st.plt_lazy == advanced(old_st.plt_lazy, (if lazy { plt } else { 0nat }) as u64)
}

proof fn lemma_kind_count_bound(relocs: Seq<StaticReloc>, kind: u32)
    ensures
        kind_count(relocs, kind) <= relocs.len(),
    decreases relocs.len(),
{
    if relocs.len() > 0 {
        lemma_kind_count_bound(relocs.drop_last(), kind);
    }
}

fn apply_dynamic_imports_inner(
    st: &mut RelocState,
    backed: &FrameBackedImage,
    image_bytes: &[u8],
    lib_base: u64,
    lazy_plt: bool,
) -> (r: Result<(usize, Vec<RelocWrite>), ()>)
    ensures
        r is Ok <==> imports_ok(backed, import_relocs(image_bytes@, load_base_of(backed), lib_base), lazy_plt),
        r is Err ==> final(st).rejected == bumped(old(st).rejected),
        r is Ok ==> final(st).rejected == old(st).rejected,
        r is Ok ==> imports_done(*old(st), *final(st), backed, import_relocs(image_bytes@, load_base_of(backed), lib_base),
            lazy_plt, r->Ok_0.0, r->Ok_0.1@),
        has_link_tag(image_bytes@) ==> final(st).imports == bumped(old(st).imports) && final(st).plt_slots == bumped(old(st).plt_slots),
        !has_link_tag(image_bytes@) ==> final(st).imports == old(st).imports && final(st).plt_slots == old(st).plt_slots,
        final(st).applied == old(st).applied && final(st).plt_bound == old(st).plt_bound,
        final(st).ring3_plt_bound == old(st).ring3_plt_bound,
{
    let load_base = image_load_base(backed);
    let relocs = import_relocs_for_image(st, image_bytes, load_base, lib_base);
    let ghost rs = relocs@;
    let ghost st0 = *st;
    let mut writes: Vec<RelocWrite> = Vec::new();
    let mut applied: usize = 0;
    let mut k: usize = 0;
    while k < relocs.len()
        invariant
            k <= relocs@.len(),
            rs == relocs@,
            rs == import_relocs(image_bytes@, load_base_of(backed), lib_base),
            rs.len() <= 3,
            applied <= k,
            imports_done(st0, *st, backed, rs.take(k as int), lazy_plt, applied, writes@),
            st.imports == st0.imports && st.plt_slots == st0.plt_slots && st.plt_bound == st0.plt_bound,
            st.ring3_plt_bound == st0.ring3_plt_bound,
            st0.imports_applied == old(st).imports_applied && st0.plt_applied == old(st).plt_applied
                && st0.plt_lazy == old(st).plt_lazy,
            st0.plt_bound == old(st).plt_bound && st0.ring3_plt_bound == old(st).ring3_plt_bound,
            has_link_tag(image_bytes@) ==> st0.imports == bumped(old(st).imports) && st0.plt_slots == bumped(old(st).plt_slots),
            !has_link_tag(image_bytes@) ==> st0.imports == old(st).imports && st0.plt_slots == old(st).plt_slots,
            forall|j: int| 0 <= j < k && (rs[j].kind == R_X86_64_GLOB_DAT || (rs[j].kind == R_X86_64_JUMP_SLOT && !lazy_plt))
                ==> has_page(backed, (#[trigger] rs[j]).offset & !0xfffu64),
            st.rejected == old(st).rejected,
            st.applied == old(st).applied,
        decreases relocs@.len() - k,
    {
        assert(rs.take(k + 1).drop_last() =~= rs.take(k as int));
        assert(rs.take(k + 1).last() == rs[k as int]);
        proof {
            lemma_kind_count_bound(rs.take(k as int), R_X86_64_GLOB_DAT);
            lemma_kind_count_bound(rs.take(k as int), R_X86_64_JUMP_SLOT);
        }
        let reloc = relocs[k];
        if reloc.kind != R_X86_64_GLOB_DAT && reloc.kind != R_X86_64_JUMP_SLOT {
        } else if lazy_plt && reloc.kind == R_X86_64_JUMP_SLOT {
            st.plt_lazy = bump(st.plt_lazy);
            applied += 1;
        } else {
            match write_reloc_value(backed, reloc.offset, reloc.addend) {
                Ok(w) => writes.push(w),
                Err(_) => {
                    st.rejected = bump(st.rejected);
                    assert(rs[k as int] == reloc);
                    assert(!has_page(backed, rs[k as int].offset & !0xfffu64));
                    assert(!imports_ok(backed, rs, lazy_plt));
                    return Err(());
                },
            }
            applied += 1;
            st.imports_applied = bump(st.imports_applied);
            if reloc.kind == R_X86_64_JUMP_SLOT {
                st.plt_applied = bump(st.plt_applied);
            }
        }
        k += 1;
    }
    assert(rs.take(rs.len() as int) =~= rs);
    let _ = image_bytes;
    Ok((applied, writes))
}

/// Bind the image's imports now: GOT entries and PLT slots are written.
pub fn apply_dynamic_imports(st: &mut RelocState, backed: &FrameBackedImage, image_bytes: &[u8], lib_base: u64) -> (r: Result<(usize, Vec<RelocWrite>), ()>)
    ensures
        r is Ok <==> imports_ok(backed, import_relocs(image_bytes@, load_base_of(backed), lib_base), false),
        r is Err ==> final(st).rejected == bumped(old(st).rejected),
        r is Ok ==> final(st).rejected == old(st).rejected,
        r is Ok ==> imports_done(*old(st), *final(st), backed, import_relocs(image_bytes@, load_base_of(backed), lib_base),
            false, r->Ok_0.0, r->Ok_0.1@),
        has_link_tag(image_bytes@) ==> final(st).imports == bumped(old(st).imports) && final(st).plt_slots == bumped(old(st).plt_slots),
        !has_link_tag(image_bytes@) ==> final(st).imports == old(st).imports && final(st).plt_slots == old(st).plt_slots,
        final(st).applied == old(st).applied && final(st).plt_bound == old(st).plt_bound,
{
    apply_dynamic_imports_inner(st, backed, image_bytes, lib_base, false)
}

/// Bind GOT entries now and leave PLT slots for lazy binding.
pub fn apply_dynamic_imports_lazy(st: &mut RelocState, backed: &FrameBackedImage, image_bytes: &[u8], lib_base: u64) -> (r: Result<(usize, Vec<RelocWrite>), ()>)
    ensures
        r is Ok <==> imports_ok(backed, import_relocs(image_bytes@, load_base_of(backed), lib_base), true),
        r is Err ==> final(st).rejected == bumped(old(st).rejected),
        r is Ok ==> final(st).rejected == old(st).rejected,
        r is Ok ==> imports_done(*old(st), *final(st), backed, import_relocs(image_bytes@, load_base_of(backed), lib_base),
            true, r->Ok_0.0, r->Ok_0.1@),
        has_link_tag(image_bytes@) ==> final(st).imports == bumped(old(st).imports) && final(st).plt_slots == bumped(old(st).plt_slots),
        !has_link_tag(image_bytes@) ==> final(st).imports == old(st).imports && final(st).plt_slots == old(st).plt_slots,
        final(st).applied == old(st).applied && final(st).plt_bound == old(st).plt_bound,
{
    apply_dynamic_imports_inner(st, backed, image_bytes, lib_base, true)
}

/// Bind the PLT slots left lazy: every `JUMP_SLOT` of the image's imports
/// is written (and counted as bound, and as ring-3 bound while the ring-3
/// PLT smoke runs).
pub fn bind_lazy_plt(st: &mut RelocState, backed: &FrameBackedImage, image_bytes: &[u8], lib_base: u64) -> (r: Result<(usize, Vec<RelocWrite>), ()>)
    ensures
        r is Ok <==> (forall|k: int| 0 <= k < import_relocs(image_bytes@, load_base_of(backed), lib_base).len()
            && (#[trigger] import_relocs(image_bytes@, load_base_of(backed), lib_base)[k]).kind == R_X86_64_JUMP_SLOT
            ==> has_page(backed, import_relocs(image_bytes@, load_base_of(backed), lib_base)[k].offset & !0xfffu64)),
        r is Err ==> final(st).rejected == bumped(old(st).rejected),
        r is Ok ==> r->Ok_0.1@.len() == r->Ok_0.0,
        r is Ok ==> ({
            let rs = import_relocs(image_bytes@, load_base_of(backed), lib_base);
            let n = kind_count(rs, R_X86_64_JUMP_SLOT);
            &&& r->Ok_0.0 == n
            &&& r->Ok_0.1@ == plt_writes(backed, rs)
            &&& final(st).plt_bound == advanced(old(st).plt_bound, n as u64)
            &&& final(st).plt_applied == advanced(old(st).plt_applied, n as u64)
            &&& final(st).imports_applied == advanced(old(st).imports_applied, n as u64)
            &&& final(st).ring3_plt_bound == (if old(st).ring3_plt_smoke != 0 {
                advanced(old(st).ring3_plt_bound, n as u64)
            } else {
                old(st).ring3_plt_bound
            })
            &&& final(st).rejected == old(st).rejected
        }),
        final(st).applied == old(st).applied && final(st).plt_lazy == old(st).plt_lazy,
{
    let load_base = image_load_base(backed);
    let relocs = import_relocs_for_image(st, image_bytes, load_base, lib_base);
    let ghost rs = relocs@;
    let ghost rej = st.rejected;
    let ghost st0 = *st;
    let mut writes: Vec<RelocWrite> = Vec::new();
    let mut bound: usize = 0;
    let mut k: usize = 0;
    while k < relocs.len()
        invariant
            k <= relocs@.len(),
            rs == relocs@,
            rs == import_relocs(image_bytes@, load_base_of(backed), lib_base),
            rs.len() <= 3,
            bound <= k,
            writes@.len() == bound,
            bound == kind_count(rs.take(k as int), R_X86_64_JUMP_SLOT),
            writes@ == plt_writes(backed, rs.take(k as int)),
            st.plt_bound == advanced(st0.plt_bound, bound as u64),
            st.plt_applied == advanced(st0.plt_applied, bound as u64),
            st.imports_applied == advanced(st0.imports_applied, bound as u64),
            st.ring3_plt_smoke == st0.ring3_plt_smoke,
            st.ring3_plt_bound == (if st0.ring3_plt_smoke != 0 { advanced(st0.ring3_plt_bound, bound as u64) } else { st0.ring3_plt_bound }),
            st.applied == st0.applied && st.plt_lazy == st0.plt_lazy,
            st0.plt_bound == old(st).plt_bound && st0.plt_applied == old(st).plt_applied
                && st0.imports_applied == old(st).imports_applied && st0.ring3_plt_bound == old(st).ring3_plt_bound
                && st0.ring3_plt_smoke == old(st).ring3_plt_smoke && st0.applied == old(st).applied
                && st0.plt_lazy == old(st).plt_lazy,
            forall|j: int| 0 <= j < k && (#[trigger] rs[j]).kind == R_X86_64_JUMP_SLOT ==> has_page(backed, rs[j].offset & !0xfffu64),
            st.rejected == rej,
            rej == old(st).rejected,
        decreases relocs@.len() - k,
    {
        assert(rs.take(k + 1).drop_last() =~= rs.take(k as int));
        assert(rs.take(k + 1).last() == rs[k as int]);
        proof {
            lemma_kind_count_bound(rs.take(k as int), R_X86_64_JUMP_SLOT);
        }
        let reloc = relocs[k];
        if reloc.kind == R_X86_64_JUMP_SLOT {
            match write_reloc_value(backed, reloc.offset, reloc.addend) {
                Ok(w) => writes.push(w),
                Err(_) => {
                    st.rejected = bump(st.rejected);
                    assert(rs[k as int] == reloc);
                    assert(!has_page(backed, rs[k as int].offset & !0xfffu64));
                    return Err(());
                },
            }
            bound += 1;
            st.plt_bound = bump(st.plt_bound);
            if st.ring3_plt_smoke != 0 {
                st.ring3_plt_bound = bump(st.ring3_plt_bound);
            }
            st.plt_applied = bump(st.plt_applied);
            st.imports_applied = bump(st.imports_applied);
        }
        k += 1;
    }
    assert(rs.take(rs.len() as int) =~= rs);
    let _ = image_bytes;
    Ok((bound, writes))
}

} // verus!
