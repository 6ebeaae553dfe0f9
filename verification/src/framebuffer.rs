//! The 320x200 256-colour back buffer: rectangle fills, the 5x7 font, the
//! cursor, and the desktop frame; the counters of pixels and flushes.
use vstd::prelude::*;

use crate::counter::{bump, bumped};
use crate::desktop_shell::{render_shell, ShellState};
use crate::mouse::{cursor_position, MouseState};
use vstd::string::StringSliceAdditionalSpecFns;

verus! {

pub const WIDTH: usize = 320;
pub const HEIGHT: usize = 200;
pub const BUFFER_LEN: usize = 64000;

/// Palette indices of the UI colours.
pub const COLOR_DESKTOP: u8 = 3;
pub const COLOR_TITLEBAR: u8 = 1;
pub const COLOR_ACCENT: u8 = 14;
pub const COLOR_TEXT: u8 = 15;
pub const COLOR_CURSOR: u8 = 15;

#[derive(Debug, Clone, Copy, PartialEq, Eq, Structural)]
pub struct Rect {
    pub x: usize,
    pub y: usize,
    pub w: usize,
    pub h: usize,
}

impl Rect {
    pub fn empty() -> (r: Self)
        ensures
            r == (Rect { x: 0, y: 0, w: 0, h: 0 }),
    {
        Self { x: 0, y: 0, w: 0, h: 0 }
    }

    pub fn new(x: usize, y: usize, w: usize, h: usize) -> (r: Self)
        ensures
            r == (Rect { x, y, w, h }),
    {
        Self { x, y, w, h }
    }
}

/// Mode flag, drawing counters and the back buffer.
pub struct FramebufferState {
    pub mode_active: bool,
    pub pixels_drawn: u64,
    pub flush_count: u64,
    pub back_buffer: Vec<u8>,
}

impl FramebufferState {
    pub open spec fn wf(&self) -> bool {
        self.back_buffer@.len() == BUFFER_LEN
    }

    pub fn new() -> (r: Self)
        ensures
            r.wf(),
            !r.mode_active,
            r.pixels_drawn == 0 && r.flush_count == 0,
            forall|i: int| 0 <= i < BUFFER_LEN ==> #[trigger] r.back_buffer@[i] == 0u8,
    {
        let mut back_buffer: Vec<u8> = Vec::new();
        let mut i: usize = 0;
        while i < BUFFER_LEN
            invariant
                i <= BUFFER_LEN,
                back_buffer@.len() == i,
                forall|k: int| 0 <= k < i ==> #[trigger] back_buffer@[k] == 0u8,
            decreases BUFFER_LEN - i,
        {
            back_buffer.push(0);
            i += 1;
        }
        FramebufferState { mode_active: false, pixels_drawn: 0, flush_count: 0, back_buffer }
    }
}

pub fn mode_active(st: &FramebufferState) -> (r: bool)
    ensures
        r == st.mode_active,
{
    st.mode_active
}

pub fn pixels_drawn(st: &FramebufferState) -> (r: u64)
    ensures
        r == st.pixels_drawn,
{
    st.pixels_drawn
}

pub fn flush_count(st: &FramebufferState) -> (r: u64)
    ensures
        r == st.flush_count,
{
    st.flush_count
}

/// Record that the display mode is programmed.
pub fn set_mode_active(st: &mut FramebufferState)
    ensures
        final(st).mode_active,
        final(st).pixels_drawn == old(st).pixels_drawn,
        final(st).flush_count == old(st).flush_count,
        final(st).back_buffer@ == old(st).back_buffer@,
{
    st.mode_active = true;
}

/// Borrow the back buffer for drawing.
pub fn back_buffer_mut(st: &mut FramebufferState) -> (r: &mut Vec<u8>)
    ensures
        *r == old(st).back_buffer,
        final(st).back_buffer == *final(r),
        final(st).mode_active == old(st).mode_active,
        final(st).pixels_drawn == old(st).pixels_drawn,
        final(st).flush_count == old(st).flush_count,
{
    &mut st.back_buffer
}

pub open spec fn min_int(a: int, b: int) -> int {
    if a < b {
        a
    } else {
        b
    }
}

/// Whether buffer index `i` lies in the rectangle of rows `[y, y_end)` and
/// columns `[x, x_end)`.
pub open spec fn in_rect(i: int, x: int, y: int, x_end: int, y_end: int) -> bool {
    y <= i / (WIDTH as int) < y_end && x <= i % (WIDTH as int) < x_end
}

proof fn lemma_index_row_col(row: int, col: int)
    requires
        0 <= row,
        0 <= col < WIDTH,
    ensures
        (row * WIDTH + col) / (WIDTH as int) == row,
        (row * WIDTH + col) % (WIDTH as int) == col,
{
    vstd::arithmetic::div_mod::lemma_fundamental_div_mod_converse(row * WIDTH + col, WIDTH as int, row, col);
}

proof fn lemma_index_bound(row: int, col: int)
    requires
        0 <= row < HEIGHT,
        0 <= col < WIDTH,
    ensures
        0 <= row * WIDTH + col < BUFFER_LEN,
{
    assert(row * WIDTH <= (HEIGHT - 1) * WIDTH) by (nonlinear_arith)
        requires
            0 <= row < HEIGHT,
    ;
}

/// Fill the rectangle at (`x`, `y`) of size `w` x `h`, clipped to the
/// screen, with `color`; an empty rectangle draws nothing.
pub fn fill_rect_buf(buf: &mut [u8], x: usize, y: usize, w: usize, h: usize, color: u8)
    requires
        old(buf)@.len() >= BUFFER_LEN,
        x + w <= usize::MAX,
        y + h <= usize::MAX,
    ensures
        final(buf)@.len() == old(buf)@.len(),
        final(buf)@ == fill_image(old(buf)@, x as int, y as int, w as int, h as int, color),
        forall|i: int|
            0 <= i < old(buf)@.len() ==> #[trigger] final(buf)@[i] == if w > 0 && h > 0 && i < BUFFER_LEN
                && in_rect(i, x as int, y as int, min_int(x + w, WIDTH as int), min_int(y + h, HEIGHT as int)) {
                color
            } else {
                old(buf)@[i]
            },
{
    if w == 0 || h == 0 {
        return;
    }
    let x_end = if x + w < WIDTH {
        x + w
    } else {
        WIDTH
    };
    let y_end = if y + h < HEIGHT {
        y + h
    } else {
        HEIGHT
    };
    let mut row = y;
    while row < y_end
        invariant
            buf@.len() == old(buf)@.len(),
            old(buf)@.len() >= BUFFER_LEN,
            x_end <= WIDTH,
            y_end <= HEIGHT,
            x_end == min_int(x + w, WIDTH as int),
            y_end == min_int(y + h, HEIGHT as int),
            y <= row || row >= y_end,
            row <= y_end || row == y,
            forall|i: int|
                0 <= i < buf@.len() ==> #[trigger] buf@[i] == if i < BUFFER_LEN && in_rect(i, x as int, y as int, x_end as int, row as int) {
                    color
                } else {
                    old(buf)@[i]
                },
        decreases y_end - row,
    {
        let mut col = x;
        while col < x_end
            invariant
                buf@.len() == old(buf)@.len(),
                old(buf)@.len() >= BUFFER_LEN,
                x_end <= WIDTH,
                y_end <= HEIGHT,
                y <= row < y_end,
                x <= col || col >= x_end,
                col <= x_end || col == x,
                forall|i: int|
                    0 <= i < buf@.len() ==> #[trigger] buf@[i] == if i < BUFFER_LEN && (in_rect(i, x as int, y as int, x_end as int, row as int)
                        || (i / (WIDTH as int) == row && x <= i % (WIDTH as int) < col)) {
                        color
                    } else {
                        old(buf)@[i]
                    },
            decreases x_end - col,
        {
            proof {
                lemma_index_bound(row as int, col as int);
                lemma_index_row_col(row as int, col as int);
            }
            let idx = row * WIDTH + col;
            let ghost prev = buf@;
            buf[idx] = color;
            assert forall|i: int| 0 <= i < buf@.len() implies #[trigger] buf@[i] == if i < BUFFER_LEN && (in_rect(i, x as int, y as int, x_end as int, row as int)
                || (i / (WIDTH as int) == row && x <= i % (WIDTH as int) < col + 1)) {
                color
            } else {
                old(buf)@[i]
            } by {
                if i != idx {
                    assert(buf@[i] == prev[i]);
                    if i / (WIDTH as int) == row && i % (WIDTH as int) == col {
                        vstd::arithmetic::div_mod::lemma_fundamental_div_mod(i, WIDTH as int);
                        assert(i == row * WIDTH + col);
                    }
                }
            }
            col += 1;
        }
        assert forall|i: int| 0 <= i < buf@.len() implies #[trigger] buf@[i] == if i < BUFFER_LEN && in_rect(i, x as int, y as int, x_end as int, row + 1) {
            color
        } else {
            old(buf)@[i]
        } by {
            if x >= x_end {
                assert(!(x <= i % (WIDTH as int) < x_end));
            }
        }
        row += 1;
    }
    assert forall|i: int| 0 <= i < old(buf)@.len() implies #[trigger] buf@[i] == if w > 0 && h > 0 && i < BUFFER_LEN
        && in_rect(i, x as int, y as int, min_int(x + w, WIDTH as int), min_int(y + h, HEIGHT as int)) {
        color
    } else {
        old(buf)@[i]
    } by {
        if y >= y_end {
            assert(!(y <= i / (WIDTH as int) < y_end));
        }
    }
}

/// Fill a rectangle of the back buffer.
pub fn fill_rect(st: &mut FramebufferState, x: usize, y: usize, w: usize, h: usize, color: u8)
    requires
        old(st).wf(),
        x + w <= usize::MAX,
        y + h <= usize::MAX,
    ensures
        final(st).wf(),
        forall|i: int|
            0 <= i < BUFFER_LEN ==> #[trigger] final(st).back_buffer@[i] == if w > 0 && h > 0
                && in_rect(i, x as int, y as int, min_int(x + w, WIDTH as int), min_int(y + h, HEIGHT as int)) {
                color
            } else {
                old(st).back_buffer@[i]
            },
        final(st).mode_active == old(st).mode_active,
        final(st).pixels_drawn == old(st).pixels_drawn,
        final(st).flush_count == old(st).flush_count,
{
    fill_rect_buf(st.back_buffer.as_mut_slice(), x, y, w, h, color);
}

/// The 5x7 font: rows of five pixels (bit 4 leftmost) for the characters
/// the UI uses.
pub open spec fn glyph_rows(c: u8) -> Option<Seq<u8>> {
    if c == 32u8 {
        Some(seq![0u8, 0, 0, 0, 0, 0, 0])
    } else if c == 45u8 {
        Some(seq![0u8, 0, 0, 0x1F, 0, 0, 0])
    } else if c == 65u8 {
        Some(seq![0x0Eu8, 0x11, 0x11, 0x1F, 0x11, 0x11, 0x11])
    } else if c == 67u8 {
        Some(seq![0x0Eu8, 0x11, 0x10, 0x10, 0x10, 0x11, 0x0E])
    } else if c == 69u8 {
        Some(seq![0x1Fu8, 0x10, 0x10, 0x1E, 0x10, 0x10, 0x1F])
    } else if c == 70u8 {
        Some(seq![0x1Fu8, 0x10, 0x10, 0x1E, 0x10, 0x10, 0x10])
    } else if c == 72u8 {
        Some(seq![0x11u8, 0x11, 0x11, 0x1F, 0x11, 0x11, 0x11])
    } else if c == 73u8 {
        Some(seq![0x0Eu8, 0x04, 0x04, 0x04, 0x04, 0x04, 0x0E])
    } else if c == 76u8 {
        Some(seq![0x10u8, 0x10, 0x10, 0x10, 0x10, 0x10, 0x1F])
    } else if c == 77u8 {
        Some(seq![0x11u8, 0x1B, 0x15, 0x11, 0x11, 0x11, 0x11])
    } else if c == 78u8 {
        Some(seq![0x11u8, 0x11, 0x19, 0x15, 0x13, 0x11, 0x11])
    } else if c == 79u8 {
        Some(seq![0x0Eu8, 0x11, 0x11, 0x11, 0x11, 0x11, 0x0E])
    } else if c == 80u8 {
        Some(seq![0x1Eu8, 0x11, 0x11, 0x1E, 0x10, 0x10, 0x10])
    } else if c == 82u8 {
        Some(seq![0x1Eu8, 0x11, 0x11, 0x1E, 0x14, 0x12, 0x11])
    } else if c == 83u8 {
        Some(seq![0x0Fu8, 0x10, 0x10, 0x0E, 0x01, 0x01, 0x1E])
    } else if c == 84u8 {
        Some(seq![0x1Fu8, 0x04, 0x04, 0x04, 0x04, 0x04, 0x04])
    } else if c == 85u8 {
        Some(seq![0x11u8, 0x11, 0x11, 0x11, 0x11, 0x11, 0x0E])
    } else if c == 89u8 {
        Some(seq![0x11u8, 0x11, 0x0A, 0x04, 0x04, 0x04, 0x04])
    } else {
        None
    }
}

/// The glyph of `c`, if the font has one.
pub fn glyph(c: u8) -> (r: Option<[u8; 7]>)
    ensures
        r is None <==> glyph_rows(c) is None,
        r matches Some(g) ==> g@ == glyph_rows(c)->Some_0,
{
    let g: [u8; 7] = if c == 32u8 {
        [0, 0, 0, 0, 0, 0, 0]
    } else if c == 45u8 {
        [0, 0, 0, 0x1F, 0, 0, 0]
    } else if c == 65u8 {
        [0x0E, 0x11, 0x11, 0x1F, 0x11, 0x11, 0x11]
    } else if c == 67u8 {
        [0x0E, 0x11, 0x10, 0x10, 0x10, 0x11, 0x0E]
    } else if c == 69u8 {
        [0x1F, 0x10, 0x10, 0x1E, 0x10, 0x10, 0x1F]
    } else if c == 70u8 {
        [0x1F, 0x10, 0x10, 0x1E, 0x10, 0x10, 0x10]
    } else if c == 72u8 {
        [0x11, 0x11, 0x11, 0x1F, 0x11, 0x11, 0x11]
    } else if c == 73u8 {
        [0x0E, 0x04, 0x04, 0x04, 0x04, 0x04, 0x0E]
    } else if c == 76u8 {
        [0x10, 0x10, 0x10, 0x10, 0x10, 0x10, 0x1F]
    } else if c == 77u8 {
        [0x11, 0x1B, 0x15, 0x11, 0x11, 0x11, 0x11]
    } else if c == 78u8 {
        [0x11, 0x11, 0x19, 0x15, 0x13, 0x11, 0x11]
    } else if c == 79u8 {
        [0x0E, 0x11, 0x11, 0x11, 0x11, 0x11, 0x0E]
    } else if c == 80u8 {
        [0x1E, 0x11, 0x11, 0x1E, 0x10, 0x10, 0x10]
    } else if c == 82u8 {
        [0x1E, 0x11, 0x11, 0x1E, 0x14, 0x12, 0x11]
    } else if c == 83u8 {
        [0x0F, 0x10, 0x10, 0x0E, 0x01, 0x01, 0x1E]
    } else if c == 84u8 {
        [0x1F, 0x04, 0x04, 0x04, 0x04, 0x04, 0x04]
    } else if c == 85u8 {
        [0x11, 0x11, 0x11, 0x11, 0x11, 0x11, 0x0E]
    } else if c == 89u8 {
        [0x11, 0x11, 0x0A, 0x04, 0x04, 0x04, 0x04]
    } else {
        return None;
    };
    assert(g@ =~= glyph_rows(c)->Some_0);
    Some(g)
}

/// What a text draw may change: only pixels of rows `[y, y + 7)` from
/// column `x` on, and only to `color`.
/// Pixel (`row`, `col`) of the glyph of `c` is set.
pub open spec fn glyph_bit(c: u8, row: int, col: int) -> bool {
    &&& glyph_rows(c) is Some
    &&& 0 <= row < 7
    &&& 0 <= col < 5
    &&& glyph_rows(c)->Some_0[row] & (1u8 << ((4 - col) as u8)) != 0
}

/// Character `k` of a text drawn at column `x` is reached: the first always,
/// a later one while it still fits on the screen.
pub open spec fn char_drawn(x: int, k: int) -> bool {
    k == 0 || x + 6 * k + 5 < WIDTH
}

/// Screen pixel (`px`, `py`) is set by the text drawn at (`x`, `y`) once the
/// characters before `k`, the first `r` rows of character `k` and the first
/// `b` pixels of its row `r` are drawn.
pub open spec fn lit_upto(text: Seq<u8>, x: int, y: int, px: int, py: int, k: int, r: int, b: int) -> bool {
    exists|j: int, col: int|
        0 <= j <= k && j < text.len() && char_drawn(x, j) && 0 <= col < 5 && px == x + 6 * j + col
            && #[trigger] glyph_bit(text[j], py - y, col) && (j < k || py - y < r || (py - y == r && col < b))
}

/// Screen pixel (`px`, `py`) is set by the whole text drawn at (`x`, `y`).
pub open spec fn text_lit(text: Seq<u8>, x: int, y: int, px: int, py: int) -> bool {
    lit_upto(text, x, y, px, py, text.len() as int, 0, 0)
}

/// The buffer `b` with the pixels that `lit_upto` names set to `color`.
pub open spec fn text_image_upto(b: Seq<u8>, text: Seq<u8>, x: int, y: int, color: u8, k: int, r: int, c: int) -> Seq<u8> {
    Seq::new(b.len(), |i: int| if 0 <= i < BUFFER_LEN && lit_upto(text, x, y, i % (WIDTH as int), i / (WIDTH as int), k, r, c) {
        color
    } else {
        b[i]
    })
}

/// The buffer `b` with `text` drawn at (`x`, `y`) in `color`.
pub open spec fn text_image(b: Seq<u8>, text: Seq<u8>, x: int, y: int, color: u8) -> Seq<u8> {
    text_image_upto(b, text, x, y, color, text.len() as int, 0, 0)
}

/// The buffer `b` with the rectangle at (`x`, `y`) of size `w` x `h`,
/// clipped to the screen, filled with `color`.
pub open spec fn fill_image(b: Seq<u8>, x: int, y: int, w: int, h: int, color: u8) -> Seq<u8> {
    Seq::new(b.len(), |i: int| if w > 0 && h > 0 && 0 <= i < BUFFER_LEN && in_rect(i, x, y, min_int(x + w, WIDTH as int),
        min_int(y + h, HEIGHT as int)) {
        color
    } else {
        b[i]
    })
}

/// Drawing one more pixel of row `r` of character `k`.
proof fn lemma_lit_bit(text: Seq<u8>, x: int, y: int, k: int, r: int, b: int, qx: int, qy: int)
    requires
        0 <= k < text.len(),
        char_drawn(x, k),
        0 <= r < 7,
        0 <= b < 5,
    ensures
        lit_upto(text, x, y, qx, qy, k, r, b + 1) == (lit_upto(text, x, y, qx, qy, k, r, b) || (qx == x + 6 * k + b
            && qy == y + r && glyph_bit(text[k], r, b))),
{
    if lit_upto(text, x, y, qx, qy, k, r, b + 1) {
        let (j, col) = choose|j: int, col: int|
            0 <= j <= k && j < text.len() && char_drawn(x, j) && 0 <= col < 5 && qx == x + 6 * j + col
                && #[trigger] glyph_bit(text[j], qy - y, col) && (j < k || qy - y < r || (qy - y == r && col < b + 1));
        if !(j == k && qy - y == r && col == b) {
            assert(glyph_bit(text[j], qy - y, col));
        }
    }
    if qx == x + 6 * k + b && qy == y + r && glyph_bit(text[k], r, b) {
        assert(glyph_bit(text[k], qy - y, b));
    }
    if lit_upto(text, x, y, qx, qy, k, r, b) {
        let (j, col) = choose|j: int, col: int|
            0 <= j <= k && j < text.len() && char_drawn(x, j) && 0 <= col < 5 && qx == x + 6 * j + col
                && #[trigger] glyph_bit(text[j], qy - y, col) && (j < k || qy - y < r || (qy - y == r && col < b));
        assert(glyph_bit(text[j], qy - y, col));
    }
}

/// Finishing row `r` of character `k`.
proof fn lemma_lit_row(text: Seq<u8>, x: int, y: int, k: int, r: int, qx: int, qy: int)
    ensures
        lit_upto(text, x, y, qx, qy, k, r, 5) == lit_upto(text, x, y, qx, qy, k, r + 1, 0),
{
    if lit_upto(text, x, y, qx, qy, k, r, 5) {
        let (j, col) = choose|j: int, col: int|
            0 <= j <= k && j < text.len() && char_drawn(x, j) && 0 <= col < 5 && qx == x + 6 * j + col
                && #[trigger] glyph_bit(text[j], qy - y, col) && (j < k || qy - y < r || (qy - y == r && col < 5));
        assert(glyph_bit(text[j], qy - y, col));
    }
    if lit_upto(text, x, y, qx, qy, k, r + 1, 0) {
        let (j, col) = choose|j: int, col: int|
            0 <= j <= k && j < text.len() && char_drawn(x, j) && 0 <= col < 5 && qx == x + 6 * j + col
                && #[trigger] glyph_bit(text[j], qy - y, col) && (j < k || qy - y < r + 1 || (qy - y == r + 1 && col < 0));
        assert(glyph_bit(text[j], qy - y, col));
    }
}

/// Finishing character `k` (all seven rows drawn, or no glyph to draw).
proof fn lemma_lit_char(text: Seq<u8>, x: int, y: int, k: int, r: int, qx: int, qy: int)
    requires
        r == 7 || glyph_rows(text[k]) is None,
        r == 0 || r == 7,
    ensures
        lit_upto(text, x, y, qx, qy, k, r, 0) == lit_upto(text, x, y, qx, qy, k + 1, 0, 0),
{
    if lit_upto(text, x, y, qx, qy, k, r, 0) {
        let (j, col) = choose|j: int, col: int|
            0 <= j <= k && j < text.len() && char_drawn(x, j) && 0 <= col < 5 && qx == x + 6 * j + col
                && #[trigger] glyph_bit(text[j], qy - y, col) && (j < k || qy - y < r || (qy - y == r && col < 0));
        assert(glyph_bit(text[j], qy - y, col));
    }
    if lit_upto(text, x, y, qx, qy, k + 1, 0, 0) {
        let (j, col) = choose|j: int, col: int|
            0 <= j <= k + 1 && j < text.len() && char_drawn(x, j) && 0 <= col < 5 && qx == x + 6 * j + col
                && #[trigger] glyph_bit(text[j], qy - y, col) && (j < k + 1 || qy - y < 0 || (qy - y == 0 && col < 0));
        assert(glyph_bit(text[j], qy - y, col));
    }
}

/// Once character `k + 1` no longer fits, the rest of the text draws nothing.
proof fn lemma_lit_stop(text: Seq<u8>, x: int, y: int, k: int, qx: int, qy: int)
    requires
        0 <= k,
        k + 1 <= text.len(),
        x + 6 * (k + 1) + 5 >= WIDTH,
    ensures
        lit_upto(text, x, y, qx, qy, k + 1, 0, 0) == text_lit(text, x, y, qx, qy),
{
    if text_lit(text, x, y, qx, qy) {
        let (j, col) = choose|j: int, col: int|
            0 <= j <= text.len() && j < text.len() && char_drawn(x, j) && 0 <= col < 5 && qx == x + 6 * j + col
                && #[trigger] glyph_bit(text[j], qy - y, col) && (j < text.len() || qy - y < 0 || (qy - y == 0 && col < 0));
        assert(j <= k);
        assert(glyph_bit(text[j], qy - y, col));
    }
    if lit_upto(text, x, y, qx, qy, k + 1, 0, 0) {
        let (j, col) = choose|j: int, col: int|
            0 <= j <= k + 1 && j < text.len() && char_drawn(x, j) && 0 <= col < 5 && qx == x + 6 * j + col
                && #[trigger] glyph_bit(text[j], qy - y, col) && (j < k + 1 || qy - y < 0 || (qy - y == 0 && col < 0));
        assert(glyph_bit(text[j], qy - y, col));
    }
}

pub open spec fn text_frame(before: Seq<u8>, after: Seq<u8>, x: int, y: int, color: u8) -> bool {
    &&& after.len() == before.len()
    &&& forall|i: int| 0 <= i < after.len() ==> #[trigger] after[i] == before[i] || after[i] == color
    &&& forall|i: int|
        0 <= i < after.len() && (i >= BUFFER_LEN || i / (WIDTH as int) < y || i / (WIDTH as int) >= y + 7
            || i % (WIDTH as int) < x) ==> #[trigger] after[i] == before[i]
}

/// A buffer index names the pixel in its row and column.
proof fn lemma_index_decode(i: int)
    requires
        0 <= i < BUFFER_LEN,
    ensures
        0 <= i / (WIDTH as int) < HEIGHT,
        0 <= i % (WIDTH as int) < WIDTH,
        i == (i / (WIDTH as int)) * WIDTH + i % (WIDTH as int),
{
    vstd::arithmetic::div_mod::lemma_fundamental_div_mod(i, WIDTH as int);
    let q = i / (WIDTH as int);
    let m = i % (WIDTH as int);
    assert(0 <= q < HEIGHT) by (nonlinear_arith)
        requires
            i == (WIDTH as int) * q + m,
            0 <= m < WIDTH,
            0 <= i < BUFFER_LEN,
    ;
}

/// Draw `text` at (`x`, `y`) in the 5x7 font with a 6-pixel advance,
/// clipped to the screen; characters without a glyph leave a gap, and
/// drawing stops once the next character would not fit.
pub fn draw_text_buf(buf: &mut [u8], x: usize, y: usize, text: &str, color: u8)
    requires
        old(buf)@.len() >= BUFFER_LEN,
        x <= usize::MAX - 16,
        y <= usize::MAX - 16,
    ensures
        text_frame(old(buf)@, final(buf)@, x as int, y as int, color),
        final(buf)@ == text_image(old(buf)@, text.spec_bytes(), x as int, y as int, color),
{
    let bytes = text.as_bytes();
    let ghost t = bytes@;
    let mut cursor = x;
    let mut k: usize = 0;
    assert(buf@ =~= text_image_upto(old(buf)@, t, x as int, y as int, color, 0, 0, 0));
    while k < bytes.len()
        invariant_except_break
            cursor == x || cursor + 5 < WIDTH,
            k <= bytes@.len(),
        invariant
            buf@.len() == old(buf)@.len(),
            old(buf)@.len() >= BUFFER_LEN,
            x <= usize::MAX - 16,
            x <= cursor,
            cursor <= usize::MAX - 10,
            y <= usize::MAX - 16,
            t == bytes@,
            cursor == x + 6 * k,
            text_frame(old(buf)@, buf@, x as int, y as int, color),
            buf@ == text_image_upto(old(buf)@, t, x as int, y as int, color, k as int, 0, 0),
        ensures
            buf@.len() == old(buf)@.len(),
            text_frame(old(buf)@, buf@, x as int, y as int, color),
            buf@ == text_image(old(buf)@, t, x as int, y as int, color),
        decreases bytes@.len() - k,
    {
        let ch = bytes[k];
        assert(char_drawn(x as int, k as int));
        if let Some(rows) = glyph(ch) {
            let mut row_idx: usize = 0;
            while row_idx < 7
                invariant
                    buf@.len() == old(buf)@.len(),
                    old(buf)@.len() >= BUFFER_LEN,
                    x <= cursor,
                    cursor == x || cursor + 5 < WIDTH,
                    x <= usize::MAX - 16,
                    y <= usize::MAX - 16,
                    row_idx <= 7,
                    k < bytes@.len(),
                    t == bytes@,
                    ch == t[k as int],
                    rows@ == glyph_rows(ch)->Some_0,
                    glyph_rows(ch) is Some,
                    cursor == x + 6 * k,
                    char_drawn(x as int, k as int),
                    text_frame(old(buf)@, buf@, x as int, y as int, color),
                    buf@ == text_image_upto(old(buf)@, t, x as int, y as int, color, k as int, row_idx as int, 0),
                decreases 7 - row_idx,
            {
                let row = rows[row_idx];
                let mut bit: usize = 0;
                while bit < 5
                    invariant
                        buf@.len() == old(buf)@.len(),
                        old(buf)@.len() >= BUFFER_LEN,
                        x <= cursor,
                        cursor == x || cursor + 5 < WIDTH,
                        x <= usize::MAX - 16,
                        y <= usize::MAX - 16,
                        row_idx < 7,
                        bit <= 5,
                        k < bytes@.len(),
                        t == bytes@,
                        ch == t[k as int],
                        row == glyph_rows(ch)->Some_0[row_idx as int],
                        glyph_rows(ch) is Some,
                        cursor == x + 6 * k,
                        char_drawn(x as int, k as int),
                        text_frame(old(buf)@, buf@, x as int, y as int, color),
                        buf@ == text_image_upto(old(buf)@, t, x as int, y as int, color, k as int, row_idx as int, bit as int),
                    decreases 5 - bit,
                {
                    let shift: u8 = (4 - bit) as u8;
                    let ghost before = buf@;
                    let set = row & (1u8 << shift) != 0;
                    assert(set == glyph_bit(ch, row_idx as int, bit as int));
                    let px = cursor + bit;
                    let py = y + row_idx;
                    if set {
                        if px < WIDTH && py < HEIGHT {
                            proof {
                                lemma_index_bound(py as int, px as int);
                                lemma_index_row_col(py as int, px as int);
                            }
                            let idx = py * WIDTH + px;
                            let ghost prev = buf@;
                            buf[idx] = color;
                            assert forall|i: int| 0 <= i < buf@.len() && (i >= BUFFER_LEN || i / (WIDTH as int) < y || i / (WIDTH as int) >= y + 7
                                || i % (WIDTH as int) < x) implies #[trigger] buf@[i] == old(buf)@[i] by {
                                assert(i != idx);
                                assert(buf@[i] == prev[i]);
                            }
                        }
                    }
                    proof {
                        let nxt = text_image_upto(old(buf)@, t, x as int, y as int, color, k as int, row_idx as int, bit + 1);
                        assert forall|i: int| 0 <= i < buf@.len() implies #[trigger] buf@[i] == nxt[i] by {
                            if 0 <= i < BUFFER_LEN {
                                lemma_index_decode(i);
                                lemma_lit_bit(t, x as int, y as int, k as int, row_idx as int, bit as int,
                                    i % (WIDTH as int), i / (WIDTH as int));
                                if set && px < WIDTH && py < HEIGHT {
                                    if i != py * WIDTH + px {
                                        assert(!(i % (WIDTH as int) == px && i / (WIDTH as int) == py));
                                    }
                                }
                            }
                        }
                        assert(buf@ =~= nxt);
                    }
                    bit += 1;
                }
                proof {
                    let nxt = text_image_upto(old(buf)@, t, x as int, y as int, color, k as int, row_idx + 1, 0);
                    assert forall|i: int| 0 <= i < buf@.len() implies #[trigger] buf@[i] == nxt[i] by {
                        lemma_lit_row(t, x as int, y as int, k as int, row_idx as int, i % (WIDTH as int), i / (WIDTH as int));
                    }
                    assert(buf@ =~= nxt);
                }
                row_idx += 1;
            }
            proof {
                let nxt = text_image_upto(old(buf)@, t, x as int, y as int, color, k + 1, 0, 0);
                assert forall|i: int| 0 <= i < buf@.len() implies #[trigger] buf@[i] == nxt[i] by {
                    lemma_lit_char(t, x as int, y as int, k as int, 7, i % (WIDTH as int), i / (WIDTH as int));
                }
                assert(buf@ =~= nxt);
            }
        } else {
            proof {
                let nxt = text_image_upto(old(buf)@, t, x as int, y as int, color, k + 1, 0, 0);
                assert forall|i: int| 0 <= i < buf@.len() implies #[trigger] buf@[i] == nxt[i] by {
                    lemma_lit_char(t, x as int, y as int, k as int, 0, i % (WIDTH as int), i / (WIDTH as int));
                }
                assert(buf@ =~= nxt);
            }
        }
        cursor += 6;
        k += 1;
        if cursor + 5 >= WIDTH {
            proof {
                let full = text_image(old(buf)@, t, x as int, y as int, color);
                assert forall|i: int| 0 <= i < buf@.len() implies #[trigger] buf@[i] == full[i] by {
                    lemma_lit_stop(t, x as int, y as int, k - 1, i % (WIDTH as int), i / (WIDTH as int));
                }
                assert(buf@ =~= full);
            }
            break;
        }
    }
}

/// Draw text into the back buffer.
pub fn draw_text(st: &mut FramebufferState, x: usize, y: usize, text: &str, color: u8)
    requires
        old(st).wf(),
        x <= usize::MAX - 16,
        y <= usize::MAX - 16,
    ensures
        final(st).wf(),
        text_frame(old(st).back_buffer@, final(st).back_buffer@, x as int, y as int, color),
        final(st).back_buffer@ == text_image(old(st).back_buffer@, text.spec_bytes(), x as int, y as int, color),
        final(st).mode_active == old(st).mode_active,
        final(st).pixels_drawn == old(st).pixels_drawn,
        final(st).flush_count == old(st).flush_count,
{
    draw_text_buf(st.back_buffer.as_mut_slice(), x, y, text, color);
}

/// Draw the 2x2 cursor with its top-left at (`x`, `y`) when it fits on
/// screen.
pub fn draw_cursor(buf: &mut [u8], x: i16, y: i16)
    requires
        old(buf)@.len() >= BUFFER_LEN,
        x != -1,
        y != -1,
    ensures
        ({
            let fits = 0 <= x && x + 1 < WIDTH && 0 <= y && y + 1 < HEIGHT;
            &&& !fits ==> final(buf)@ == old(buf)@
            &&& fits ==> final(buf)@ == old(buf)@.update(y * WIDTH + x, COLOR_CURSOR).update(y * WIDTH + x + 1, COLOR_CURSOR)
                .update((y + 1) * WIDTH + x, COLOR_CURSOR).update((y + 1) * WIDTH + x + 1, COLOR_CURSOR)
        }),
{
    if x < 0 || y < 0 {
        return;
    }
    let ux = x as usize;
    let uy = y as usize;
    if ux + 1 < WIDTH && uy + 1 < HEIGHT {
        proof {
            lemma_index_bound(uy as int, ux as int + 1);
            lemma_index_bound(uy as int + 1, ux as int + 1);
            assert((uy + 1) * WIDTH == uy * WIDTH + WIDTH) by (nonlinear_arith);
        }
        buf[uy * WIDTH + ux] = COLOR_CURSOR;
        buf[uy * WIDTH + ux + 1] = COLOR_CURSOR;
        buf[(uy + 1) * WIDTH + ux] = COLOR_CURSOR;
        buf[(uy + 1) * WIDTH + ux + 1] = COLOR_CURSOR;
    }
}

/// Compose the desktop into the back buffer: background, title bar, name,
/// the shell, and the cursor. The result says whether the frame is to be
/// flushed to the screen (the display mode is active), which is counted.
pub fn render_desktop_frame(st: &mut FramebufferState, shell: &mut ShellState, mouse: &MouseState) -> (r: bool)
    requires
        old(st).wf(),
        mouse.wf(),
    ensures
        final(st).wf(),
        r == old(st).mode_active,
        r ==> final(st).flush_count == bumped(old(st).flush_count),
        !r ==> final(st).flush_count == old(st).flush_count,
        final(st).mode_active == old(st).mode_active,
        final(shell).frames == bumped(old(shell).frames),
{
    fill_rect_buf(st.back_buffer.as_mut_slice(), 0, 0, WIDTH, HEIGHT, COLOR_DESKTOP);
    fill_rect_buf(st.back_buffer.as_mut_slice(), 0, 0, WIDTH, 16, COLOR_TITLEBAR);
    draw_text_buf(st.back_buffer.as_mut_slice(), 8, 4, "AREOS", COLOR_TEXT);
    render_shell(shell, st.back_buffer.as_mut_slice());
    let (cx, cy) = cursor_position(mouse);
    draw_cursor(st.back_buffer.as_mut_slice(), cx, cy);
    if st.mode_active {
        st.flush_count = bump(st.flush_count);
        true
    } else {
        false
    }
}

/// The desktop shell is drawn as a desktop frame.
pub fn draw_desktop_shell(st: &mut FramebufferState, shell: &mut ShellState, mouse: &MouseState) -> (r: bool)
    requires
        old(st).wf(),
        mouse.wf(),
    ensures
        final(st).wf(),
        r == old(st).mode_active,
        r ==> final(st).flush_count == bumped(old(st).flush_count),
        final(st).mode_active == old(st).mode_active,
{
    render_desktop_frame(st, shell, mouse)
}

/// Framebuffer smoke (after the mode is programmed): the desktop is drawn
/// and flushed.
pub fn phase351_framebuffer_smoke(st: &mut FramebufferState, shell: &mut ShellState, mouse: &MouseState) -> (r: bool)
    requires
        old(st).wf(),
        mouse.wf(),
    ensures
        final(st).wf(),
        r ==> old(st).mode_active,
        old(st).mode_active && old(st).flush_count < u64::MAX ==> r,
{
    if !mode_active(st) {
        return false;
    }
    let _ = draw_desktop_shell(st, shell, mouse);
    flush_count(st) >= 1
}

/// Double-buffer smoke: a desktop frame is composed and flushed.
pub fn phase353_double_buffer_smoke(st: &mut FramebufferState, shell: &mut ShellState, mouse: &MouseState) -> (r: bool)
    requires
        old(st).wf(),
        mouse.wf(),
    ensures
        final(st).wf(),
        r ==> old(st).mode_active,
        old(st).mode_active && old(st).flush_count < u64::MAX ==> r,
{
    if !mode_active(st) {
        return false;
    }
    let _ = render_desktop_frame(st, shell, mouse);
    flush_count(st) >= 1
}

/// Font smoke: two lines of text are drawn into the back buffer.
pub fn phase355_font_smoke(st: &mut FramebufferState) -> (r: bool)
    requires
        old(st).wf(),
    ensures
        final(st).wf(),
        r == old(st).mode_active,
{
    if !mode_active(st) {
        return false;
    }
    draw_text_buf(st.back_buffer.as_mut_slice(), 10, 30, "AREOS DESKTOP", COLOR_TEXT);
    draw_text_buf(st.back_buffer.as_mut_slice(), 10, 40, "CONSOLE FILES RUN", COLOR_ACCENT);
    true
}

/// The 6-bit DAC colour of palette index `i`: the standard 16 VGA colours,
/// then a grey ramp.
/// The sixteen standard VGA colours as 6-bit DAC components.
pub open spec fn std_palette(i: int) -> (u8, u8, u8) {
    if i == 0 { (0, 0, 0) }
    else if i == 1 { (0, 0, 42) }
    else if i == 2 { (0, 42, 0) }
    else if i == 3 { (0, 42, 42) }
    else if i == 4 { (42, 0, 0) }
    else if i == 5 { (42, 0, 42) }
    else if i == 6 { (42, 21, 0) }
    else if i == 7 { (42, 42, 42) }
    else if i == 8 { (21, 21, 21) }
    else if i == 9 { (21, 21, 63) }
    else if i == 10 { (21, 63, 21) }
    else if i == 11 { (21, 63, 63) }
    else if i == 12 { (63, 21, 21) }
    else if i == 13 { (63, 21, 63) }
    else if i == 14 { (63, 63, 21) }
    else { (63, 63, 63) }
}

pub fn vga_palette_entry(i: u8) -> (r: (u8, u8, u8))
    ensures
        i >= 16 ==> r == (i >> 2u8, i >> 2u8, i >> 2u8),
        i < 16 ==> r == std_palette(i as int),
{
    if i >= 16 {
        return (i >> 2u8, i >> 2u8, i >> 2u8);
    }
    let std16: [(u8, u8, u8); 16] = [
        (0, 0, 0),
        (0, 0, 42),
        (0, 42, 0),
        (0, 42, 42),
        (42, 0, 0),
        (42, 0, 42),
        (42, 21, 0),
        (42, 42, 42),
        (21, 21, 21),
        (21, 21, 63),
        (21, 63, 21),
        (21, 63, 63),
        (63, 21, 21),
        (63, 21, 63),
        (63, 63, 21),
        (63, 63, 63),
    ];
    std16[i as usize]
}

} // verus!
