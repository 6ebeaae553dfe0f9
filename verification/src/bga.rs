//! Bochs VBE (BGA) display: the bookkeeping of the mode set, the back
//! buffer mapping and the boot video-memory smoke. Port and memory access
//! are the caller's, handed in as the operations the decisions need.
use crate::buddy::{cycles_succeed, BuddyFrameAllocator};
use vstd::prelude::*;

verus! {

pub const WIDTH: usize = 1024;
pub const HEIGHT: usize = 768;
pub const BPP: usize = 32;
pub const BYTES_PER_PIXEL: usize = 4;
pub const BUFFER_LEN: usize = 786432;
pub const BUFFER_BYTES: usize = 3145728;

pub const BGA_ID: u16 = 0xB0C5;
pub const BGA_VENDOR: u16 = 0x1234;
pub const BGA_DEVICE: u16 = 0x1111;

/// Virtual address of the mapped back buffer.
pub const BACK_BUFFER_VIRT: u64 = 0x5300_0000_0000;

/// Pages of the back buffer.
pub const BACK_BUFFER_PAGES: u64 = 768;

/// The pixel the boot smoke writes and reads back (BGRx blue).
pub const SMOKE_TEST_PIXEL: u32 = 0x00FF_0000;

pub struct BgaState {
    pub active: bool,
    pub back_buffer_mapped: bool,
    pub back_buffer_map_ok: bool,
    pub lfb_write_ok: bool,
    pub back_frames: u64,
    pub last_bga_id: u64,
    pub lfb_phys: u64,
    pub map_bytes: u64,
    pub phys_offset: u64,
    pub video_smoke_ran: bool,
    pub video_smoke_ok: bool,
}

impl BgaState {
    pub fn new() -> (r: Self)
        ensures
            !r.active && !r.back_buffer_mapped && !r.back_buffer_map_ok && !r.lfb_write_ok,
            r.back_frames == 0 && r.last_bga_id == 0 && r.lfb_phys == 0 && r.map_bytes == 0 && r.phys_offset == 0,
            !r.video_smoke_ran && !r.video_smoke_ok,
    {
        BgaState {
            active: false,
            back_buffer_mapped: false,
            back_buffer_map_ok: false,
            lfb_write_ok: false,
            back_frames: 0,
            last_bga_id: 0,
            lfb_phys: 0,
            map_bytes: 0,
            phys_offset: 0,
            video_smoke_ran: false,
            video_smoke_ok: false,
        }
    }
}

pub fn set_physical_memory_offset(st: &mut BgaState, offset: u64)
    ensures
        final(st).phys_offset == offset,
        final(st).active == old(st).active && final(st).back_buffer_mapped == old(st).back_buffer_mapped
            && final(st).lfb_phys == old(st).lfb_phys,
{
    st.phys_offset = offset;
}

pub fn mode_active(st: &BgaState) -> (r: bool)
    ensures
        r == st.active,
{
    st.active
}

pub fn back_buffer_mapped(st: &BgaState) -> (r: bool)
    ensures
        r == st.back_buffer_mapped,
{
    st.back_buffer_mapped
}

/// (back-buffer frames reserved, linear framebuffer write verified).
pub fn video_memory_proof(st: &BgaState) -> (r: (u64, bool))
    ensures
        r == (st.back_frames, st.lfb_write_ok),
{
    (st.back_frames, st.lfb_write_ok)
}

pub fn back_buffer_map_ok(st: &BgaState) -> (r: bool)
    ensures
        r == st.back_buffer_map_ok,
{
    st.back_buffer_map_ok
}

/// Bytes to map: the smaller of the computed buffer size and the BAR size;
/// nothing when either is zero.
pub fn map_bytes_rule(computed_size: u64, bar_size: u64) -> (r: Option<u64>)
    ensures
        computed_size == 0 || bar_size == 0 ==> r is None,
        computed_size != 0 && bar_size != 0 ==> r == Some(if computed_size <= bar_size { computed_size } else { bar_size }),
{
    if computed_size == 0 || bar_size == 0 {
        return None;
    }
    Some(if computed_size <= bar_size {
        computed_size
    } else {
        bar_size
    })
}

/// The linear framebuffer's address in the kernel's physical-memory window.
pub open spec fn lfb_address(st: &BgaState) -> int {
    st.phys_offset + st.lfb_phys
}

/// Where drawing goes: the mapped back buffer once it is mapped, else the
/// linear framebuffer itself.
pub fn back_buffer_ptr(st: &BgaState) -> (r: u64)
    requires
        st.phys_offset + st.lfb_phys <= u64::MAX,
    ensures
        st.back_buffer_mapped ==> r == BACK_BUFFER_VIRT,
        !st.back_buffer_mapped ==> r == lfb_address(st),
{
    if st.back_buffer_mapped {
        BACK_BUFFER_VIRT
    } else {
        st.phys_offset + st.lfb_phys
    }
}

/// Bring up the BGA path from what the hardware reports: the adapter id,
/// the framebuffer BAR (physical address, size), and whether the back
/// buffer's frames could be reserved. Only a BGA adapter with a usable BAR
/// and reserved frames becomes active.
pub fn init_bga_path(st: &mut BgaState, id: u16, bar: Option<(u64, u64)>, frames_reserved: bool, map_virt: bool) -> (r: bool)
    ensures
        final(st).last_bga_id == id as u64,
        r == (id == BGA_ID && bar is Some && bar->Some_0.1 != 0 && frames_reserved),
        !map_virt ==> final(st).back_buffer_mapped == old(st).back_buffer_mapped,
        r ==> final(st).active && final(st).lfb_phys == bar->Some_0.0 && final(st).back_frames == BACK_BUFFER_PAGES
            && final(st).map_bytes == (if BUFFER_BYTES <= bar->Some_0.1 { BUFFER_BYTES as u64 } else { bar->Some_0.1 })
            && (map_virt ==> final(st).back_buffer_mapped),
        !r ==> final(st).active == old(st).active && final(st).lfb_phys == old(st).lfb_phys,
        final(st).phys_offset == old(st).phys_offset,
        final(st).video_smoke_ran == old(st).video_smoke_ran,
        final(st).video_smoke_ok == old(st).video_smoke_ok,
        final(st).lfb_write_ok == old(st).lfb_write_ok,
        final(st).back_buffer_map_ok == old(st).back_buffer_map_ok,
{
    st.last_bga_id = id as u64;
    if id != BGA_ID {
        return false;
    }
    let (lfb_phys, bar_size) = match bar {
        Some(b) => b,
        None => return false,
    };
    let map_bytes = match map_bytes_rule(BUFFER_BYTES as u64, bar_size) {
        Some(m) => m,
        None => return false,
    };
    if !frames_reserved {
        return false;
    }
    st.back_frames = BACK_BUFFER_PAGES;
    if map_virt {
        st.back_buffer_mapped = true;
    }
    st.lfb_phys = lfb_phys;
    st.map_bytes = map_bytes;
    st.active = true;
    true
}

/// The boot video-memory smoke, from what the hardware reports: the BGA
/// path must come up (without mapping the back buffer) and the test pixel
/// must read back from the linear framebuffer. The flags are reset first
/// and the outcome recorded for `confirm_video_memory_smoke`.
pub fn run_video_memory_smoke(
    st: &mut BgaState,
    id: u16,
    bar: Option<(u64, u64)>,
    frames_reserved: bool,
    lfb_readback: u32,
) -> (r: bool)
    ensures
        final(st).video_smoke_ran,
        final(st).video_smoke_ok == r,
        r == (id == BGA_ID && bar is Some && bar->Some_0.1 != 0 && frames_reserved && lfb_readback == SMOKE_TEST_PIXEL),
        r ==> final(st).lfb_write_ok && final(st).back_frames == BACK_BUFFER_PAGES && final(st).active,
        r ==> smoke_confirmed(final(st)),
        !r ==> !smoke_confirmed(final(st)),
        !final(st).back_buffer_mapped && !final(st).back_buffer_map_ok,
        final(st).phys_offset == old(st).phys_offset,
{
    st.lfb_write_ok = false;
    st.back_frames = 0;
    st.back_buffer_mapped = false;
    st.back_buffer_map_ok = false;
    st.active = false;
    st.video_smoke_ran = true;
    if !init_bga_path(st, id, bar, frames_reserved, false) {
        st.video_smoke_ok = false;
        return false;
    }
    if lfb_readback != SMOKE_TEST_PIXEL {
        st.active = false;
        st.video_smoke_ok = false;
        return false;
    }
    st.lfb_write_ok = true;
    let (frames, lfb_ok) = video_memory_proof(st);
    if frames != BACK_BUFFER_PAGES || !lfb_ok {
        st.active = false;
        st.video_smoke_ok = false;
        return false;
    }
    st.video_smoke_ok = true;
    true
}

/// The boot smoke ran, passed, and its evidence still holds.
pub open spec fn smoke_confirmed(st: &BgaState) -> bool {
    st.video_smoke_ran && st.video_smoke_ok && st.back_frames == BACK_BUFFER_PAGES && st.lfb_write_ok
}

pub fn confirm_video_memory_smoke(st: &BgaState) -> (r: bool)
    ensures
        r == smoke_confirmed(st),
{
    if !st.video_smoke_ran {
        return false;
    }
    if !st.video_smoke_ok {
        return false;
    }
    let (frames, lfb_ok) = video_memory_proof(st);
    frames == BACK_BUFFER_PAGES && lfb_ok
}

/// The adapter answered with the BGA id.
pub fn smoke_bga_id_probe(id: u16) -> (r: bool)
    ensures
        r == (id == BGA_ID),
{
    id == BGA_ID
}

/// The pixel the desktop mapping check writes through the back buffer (BGRx green).
pub const MAP_TEST_PIXEL: u32 = 0x0000_FF00;

/// Whether the desktop back-buffer mapping step still has to run: the BGA
/// mode is active and the mapping has not been confirmed yet.
pub fn desktop_mapping_needed(st: &BgaState) -> (r: bool)
    ensures
        r == (!st.back_buffer_map_ok && st.active),
{
    !st.back_buffer_map_ok && st.active
}

/// Confirms the desktop back-buffer mapping from what the hardware reports:
/// whether the back buffer could be mapped, the test pixel read back through
/// the mapping, and the pixel read from the linear framebuffer after a flush.
/// Already confirmed: `true` with nothing changed. Otherwise the mapping is
/// confirmed (and the back buffer mapped) exactly when the mode is active, the
/// map succeeded and both reads give the test pixel.
pub fn map_back_buffer_for_desktop(st: &mut BgaState, mapped: bool, readback: u32, lfb_readback: u32) -> (r: bool)
    ensures
        old(st).back_buffer_map_ok ==> r && *final(st) == *old(st),
        !old(st).back_buffer_map_ok ==> r == (old(st).active && mapped && readback == MAP_TEST_PIXEL
            && lfb_readback == MAP_TEST_PIXEL),
        final(st).back_buffer_map_ok == (old(st).back_buffer_map_ok || r),
        final(st).back_buffer_mapped == (old(st).back_buffer_mapped || (!old(st).back_buffer_map_ok && old(st).active
            && mapped)),
        final(st).active == old(st).active,
        final(st).phys_offset == old(st).phys_offset,
        final(st).lfb_phys == old(st).lfb_phys,
        final(st).video_smoke_ok == old(st).video_smoke_ok,
        final(st).video_smoke_ran == old(st).video_smoke_ran,
{
    if st.back_buffer_map_ok {
        return true;
    }
    if !st.active {
        return false;
    }
    if !mapped {
        return false;
    }
    st.back_buffer_mapped = true;
    if readback != MAP_TEST_PIXEL {
        return false;
    }
    if lfb_readback != MAP_TEST_PIXEL {
        return false;
    }
    st.back_buffer_map_ok = true;
    true
}

/// The display the boot settles on.
#[derive(Clone, Copy, Debug, PartialEq, Eq, Structural)]
pub enum DisplayChoice {
    Bga,
    Mode13h,
    NoDisplay,
}

/// BGA first, mode 13h as the fallback, else no display (and BGA marked
/// inactive): from whether each path came up.
pub fn init_display(st: &mut BgaState, bga_ok: bool, mode13h_ok: bool) -> (r: DisplayChoice)
    ensures
        r == (if bga_ok { DisplayChoice::Bga } else if mode13h_ok { DisplayChoice::Mode13h } else { DisplayChoice::NoDisplay }),
        r == DisplayChoice::NoDisplay ==> !final(st).active,
        r != DisplayChoice::NoDisplay ==> final(st).active == old(st).active,
        final(st).back_buffer_map_ok == old(st).back_buffer_map_ok,
        final(st).phys_offset == old(st).phys_offset,
{
    if bga_ok {
        return DisplayChoice::Bga;
    }
    if mode13h_ok {
        return DisplayChoice::Mode13h;
    }
    st.active = false;
    DisplayChoice::NoDisplay
}

/// Checks that the buddy allocator can hand out `frame_count` frames one at a
/// time (each given straight back); on success the back buffer counts them.
pub fn smoke_buddy_back_buffer_frames(st: &mut BgaState, buddy: &mut BuddyFrameAllocator, frame_count: u64) -> (r: bool)
    ensures
        r == cycles_succeed(old(buddy).free@, frame_count as nat),
        r ==> final(st).back_frames == frame_count,
        !r ==> final(st).back_frames == old(st).back_frames,
        final(st).active == old(st).active && final(st).back_buffer_map_ok == old(st).back_buffer_map_ok,
        final(st).back_buffer_mapped == old(st).back_buffer_mapped && final(st).phys_offset == old(st).phys_offset,
{
    let mut i: u64 = 0;
    while i < frame_count
        invariant
            i <= frame_count,
            cycles_succeed(old(buddy).free@, frame_count as nat) == cycles_succeed(buddy.free@, (frame_count - i) as nat),
        decreases frame_count - i,
    {
        let frame = match buddy.allocate_frame() {
            Some(f) => f,
            None => {
                return false;
            },
        };
        buddy.deallocate_frame(frame);
        i += 1;
    }
    st.back_frames = frame_count;
    true
}

} // verus!
