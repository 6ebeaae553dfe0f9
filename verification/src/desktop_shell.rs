//! Desktop shell: the launcher strip and the taskbar drawn into the back
//! buffer, and the shell frame counter.
use vstd::prelude::*;

use crate::counter::{bump, bumped};
use crate::framebuffer::{draw_text_buf, fill_image, fill_rect_buf, text_image, BUFFER_LEN, COLOR_TEXT, COLOR_TITLEBAR, HEIGHT, WIDTH};
use vstd::string::StringSliceAdditionalSpecFns;

verus! {

pub const TASKBAR_H: usize = 54;
pub const LAUNCHER_W: usize = 144;

/// Palette index of the taskbar panel (dark grey).
pub const COLOR_PANEL: u8 = 8;

pub struct ShellState {
    pub frames: u64,
}

impl ShellState {
    pub fn new() -> (r: Self)
        ensures
            r.frames == 0,
    {
        ShellState { frames: 0 }
    }
}

pub fn taskbar_height() -> (r: usize)
    ensures
        r == TASKBAR_H,
{
    TASKBAR_H
}

/// The top row of the taskbar.
pub open spec fn taskbar_top() -> int {
    HEIGHT - TASKBAR_H
}

/// The label of launcher button `k`.
pub open spec fn button_label(k: int) -> Seq<u8> {
    if k == 0 {
        "RUN".spec_bytes()
    } else if k == 1 {
        "LS".spec_bytes()
    } else {
        "PS".spec_bytes()
    }
}

/// `b` with launcher button `k` drawn: a title-bar block and its label.
pub open spec fn button_image(b: Seq<u8>, k: int) -> Seq<u8> {
    let x = LAUNCHER_W + 120 * k;
    text_image(fill_image(b, x, taskbar_top() + 9, 108, 36, COLOR_TITLEBAR), button_label(k), x + 12, taskbar_top() + 15,
        COLOR_TEXT)
}

/// `b` with the first `n` launcher buttons drawn.
pub open spec fn buttons_image(b: Seq<u8>, n: nat) -> Seq<u8>
    decreases n,
{
    if n == 0 {
        b
    } else {
        button_image(buttons_image(b, (n - 1) as nat), n - 1)
    }
}

/// `b` with the taskbar drawn: the panel, the shell name, and three buttons.
pub open spec fn taskbar_image(b: Seq<u8>) -> Seq<u8> {
    let panel = fill_image(b, 0, taskbar_top(), WIDTH as int, TASKBAR_H as int, COLOR_PANEL);
    buttons_image(text_image(panel, "CLANOS SHELL".spec_bytes(), 24, taskbar_top() + 15, COLOR_TEXT), 3)
}

/// `b` with the launcher block drawn.
pub open spec fn launcher_image(b: Seq<u8>) -> Seq<u8> {
    text_image(fill_image(b, 0, taskbar_top(), LAUNCHER_W as int, TASKBAR_H as int, COLOR_TITLEBAR), "MENU".spec_bytes(),
        18, taskbar_top() + 15, COLOR_TEXT)
}

/// The taskbar: a panel along the bottom with the shell name and three
/// launcher buttons (RUN, LS, PS) 120 pixels apart from the launcher edge.
pub fn render_taskbar(back: &mut [u8])
    requires
        old(back)@.len() >= BUFFER_LEN,
    ensures
        final(back)@.len() == old(back)@.len(),
        forall|i: int| 0 <= i < BUFFER_LEN && i / (WIDTH as int) < HEIGHT - TASKBAR_H ==> #[trigger] final(back)@[i] == old(back)@[i],
        final(back)@ == taskbar_image(old(back)@),
{
    let y = HEIGHT - TASKBAR_H;
    fill_rect_buf(back, 0, y, WIDTH, TASKBAR_H, COLOR_PANEL);
    draw_text_buf(back, 24, y + 15, "CLANOS SHELL", COLOR_TEXT);
    let ghost base = back@;
    let mut x = LAUNCHER_W;
    let mut k: usize = 0;
    while k < 3
        invariant
            back@.len() == old(back)@.len(),
            old(back)@.len() >= BUFFER_LEN,
            x == LAUNCHER_W + 120 * k,
            y == HEIGHT - TASKBAR_H,
            k <= 3,
            forall|i: int| 0 <= i < BUFFER_LEN && i / (WIDTH as int) < HEIGHT - TASKBAR_H ==> #[trigger] back@[i] == old(back)@[i],
            base == text_image(fill_image(old(back)@, 0, taskbar_top(), WIDTH as int, TASKBAR_H as int, COLOR_PANEL),
                "CLANOS SHELL".spec_bytes(), 24, taskbar_top() + 15, COLOR_TEXT),
            back@ == buttons_image(base, k as nat),
        decreases 3 - k,
    {
        fill_rect_buf(back, x, y + 9, 108, 36, COLOR_TITLEBAR);
        let label: &str = if k == 0 {
            "RUN"
        } else if k == 1 {
            "LS"
        } else {
            "PS"
        };
        assert(label.spec_bytes() == button_label(k as int));
        draw_text_buf(back, x + 12, y + 15, label, COLOR_TEXT);
        assert(back@ == buttons_image(base, (k + 1) as nat));
        x += 120;
        k += 1;
    }
}

/// The launcher block at the left end of the taskbar.
pub fn render_launcher(back: &mut [u8])
    requires
        old(back)@.len() >= BUFFER_LEN,
    ensures
        final(back)@.len() == old(back)@.len(),
        forall|i: int| 0 <= i < BUFFER_LEN && i / (WIDTH as int) < HEIGHT - TASKBAR_H ==> #[trigger] final(back)@[i] == old(back)@[i],
        final(back)@ == launcher_image(old(back)@),
{
    let y = HEIGHT - TASKBAR_H;
    fill_rect_buf(back, 0, y, LAUNCHER_W, TASKBAR_H, COLOR_TITLEBAR);
    draw_text_buf(back, 18, y + 15, "MENU", COLOR_TEXT);
}

/// Draw the launcher, then the taskbar, and count the shell frame.
pub fn render_shell(st: &mut ShellState, back: &mut [u8])
    requires
        old(back)@.len() >= BUFFER_LEN,
    ensures
        final(back)@.len() == old(back)@.len(),
        final(st).frames == bumped(old(st).frames),
{
    render_launcher(back);
    render_taskbar(back);
    st.frames = bump(st.frames);
}

pub fn frame_count(st: &ShellState) -> (r: u64)
    ensures
        r == st.frames,
{
    st.frames
}

} // verus!
