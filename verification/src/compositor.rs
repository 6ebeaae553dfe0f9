//! Compositor IPC (`compositor.ipc.v1`): frame submissions with capability
//! flags; bit 0 asks for a pixel frame, bit 31 is an unknown capability
//! that is counted and ignored.
use vstd::prelude::*;

use crate::counter::{bump, bumped};
use crate::desktop_shell::ShellState;
use crate::framebuffer::{render_desktop_frame, FramebufferState};
use crate::mouse::MouseState;

verus! {

pub const COMPOSITOR_SCHEMA: &'static str = "compositor.ipc.v1";

#[derive(Debug, Clone, Copy, PartialEq, Eq, Structural)]
pub struct CompositorCaps {
    pub a11y_version: u16,
    pub flags: u32,
}

pub struct CompositorState {
    pub frame_submits: u64,
    pub unknown_caps_ignored: u64,
    pub pixel_frames: u64,
}

impl CompositorState {
    pub fn new() -> (r: Self)
        ensures
            r.frame_submits == 0 && r.unknown_caps_ignored == 0 && r.pixel_frames == 0,
    {
        CompositorState { frame_submits: 0, unknown_caps_ignored: 0, pixel_frames: 0 }
    }
}

/// Accept a frame submission. With bit 0 set, the display is brought up
/// (`init_display`) and, when that succeeds, a desktop frame is rendered
/// and counted as a pixel frame.
pub fn submit_frame(
    st: &mut CompositorState,
    fb: &mut FramebufferState,
    shell: &mut ShellState,
    mouse: &MouseState,
    caps: CompositorCaps,
    init_display: impl FnOnce() -> bool,
) -> (r: bool)
    requires
        old(fb).wf(),
        mouse.wf(),
        call_requires(init_display, ()),
    ensures
        r,
        final(fb).wf(),
        final(fb).mode_active == old(fb).mode_active,
        final(st).frame_submits == bumped(old(st).frame_submits),
        caps.flags & 0x8000_0000 != 0 ==> final(st).unknown_caps_ignored == bumped(old(st).unknown_caps_ignored),
        caps.flags & 0x8000_0000 == 0 ==> final(st).unknown_caps_ignored == old(st).unknown_caps_ignored,
        caps.flags & 1 == 0 ==> final(st).pixel_frames == old(st).pixel_frames,
        caps.flags & 1 != 0 ==> exists|ok: bool| call_ensures(init_display, (), ok) && final(st).pixel_frames == (if ok {
            bumped(old(st).pixel_frames)
        } else {
            old(st).pixel_frames
        }),
{
    st.frame_submits = bump(st.frame_submits);
    if caps.flags & 0x8000_0000 != 0 {
        st.unknown_caps_ignored = bump(st.unknown_caps_ignored);
    }
    if caps.flags & 0x01 != 0 {
        let ok = init_display();
        if ok {
            let _ = render_desktop_frame(fb, shell, mouse);
            st.pixel_frames = bump(st.pixel_frames);
        }
        assert(call_ensures(init_display, (), ok));
    }
    true
}

pub fn pixel_frame_count(st: &CompositorState) -> (r: u64)
    ensures
        r == st.pixel_frames,
{
    st.pixel_frames
}

/// Compositor smoke: a known-capability and an unknown-capability
/// submission are both accepted, a pixel frame is produced and the display
/// mode is active. `display_ready` is whether bringing up the display
/// succeeds.
pub fn smoke_compositor(
    st: &mut CompositorState,
    fb: &mut FramebufferState,
    shell: &mut ShellState,
    mouse: &MouseState,
    display_ready: bool,
) -> (r: bool)
    requires
        old(fb).wf(),
        mouse.wf(),
    ensures
        final(fb).wf(),
        r ==> final(fb).mode_active && final(st).pixel_frames >= 1,
        final(fb).mode_active == old(fb).mode_active,
        final(st).frame_submits == bumped(bumped(old(st).frame_submits)),
        final(st).pixel_frames == (if display_ready {
            bumped(bumped(old(st).pixel_frames))
        } else {
            old(st).pixel_frames
        }),
        r == (old(fb).mode_active && final(st).frame_submits >= 2 && final(st).pixel_frames >= 1),
{
    let ok_known = submit_frame(st, fb, shell, mouse, CompositorCaps { a11y_version: 1, flags: 0x01 },
        || -> (b: bool) ensures b == display_ready { display_ready });
    assert(0x01u32 & 1 != 0 && 0x01u32 & 0x8000_0000 == 0 && 0x8000_0001u32 & 1 != 0 && 0x8000_0001u32
        & 0x8000_0000 != 0) by (bit_vector);
    let ok_unknown = submit_frame(st, fb, shell, mouse, CompositorCaps { a11y_version: 1, flags: 0x8000_0001 },
        || -> (b: bool) ensures b == display_ready { display_ready });
    ok_known && ok_unknown && st.frame_submits >= 2 && pixel_frame_count(st) >= 1 && crate::framebuffer::mode_active(fb)
}

/// Compositor smoke on the desktop.
pub fn smoke_compositor_desktop(
    st: &mut CompositorState,
    fb: &mut FramebufferState,
    shell: &mut ShellState,
    mouse: &MouseState,
    display_ready: bool,
) -> (r: bool)
    requires
        old(fb).wf(),
        mouse.wf(),
    ensures
        final(fb).wf(),
        r ==> final(fb).mode_active && final(st).pixel_frames >= 1,
        r == (old(fb).mode_active && final(st).frame_submits >= 2 && final(st).pixel_frames >= 1),
{
    smoke_compositor(st, fb, shell, mouse, display_ready) && crate::framebuffer::mode_active(fb)
}

} // verus!
