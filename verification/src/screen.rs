//! The frame buffer: a row-major `Vec<u32>` of `SCREEN_WIDTH * SCREEN_HEIGHT`
//! pixels, and painting of axis-aligned rectangles clipped to the screen.

use vstd::prelude::*;

verus! {

use vstd::arithmetic::div_mod::lemma_fundamental_div_mod_converse;

/// Width of the game screen in pixels.
pub const SCREEN_WIDTH: usize = 800;

/// Height of the game screen in pixels.
pub const SCREEN_HEIGHT: usize = 600;

/// Number of pixels of one frame.
pub open spec fn frame_len() -> int {
    SCREEN_WIDTH * SCREEN_HEIGHT
}

/// Column of the pixel stored at buffer index `i`.
pub open spec fn pixel_x(i: int) -> int {
    i % (SCREEN_WIDTH as int)
}

/// Row of the pixel stored at buffer index `i`.
pub open spec fn pixel_y(i: int) -> int {
    i / (SCREEN_WIDTH as int)
}

/// Buffer index `i` is a pixel of the screen that lies in the half-open
/// rectangle `[x0, x1) x [y0, y1)`.
pub open spec fn in_rect(i: int, x0: int, x1: int, y0: int, y1: int) -> bool {
    &&& 0 <= i < frame_len()
    &&& x0 <= pixel_x(i) < x1
    &&& y0 <= pixel_y(i) < y1
}

/// The buffer `old` with every screen pixel of `[x0, x1) x [y0, y1)` set to
/// `color`; all other entries keep their value.
pub open spec fn paint(old: Seq<u32>, x0: int, x1: int, y0: int, y1: int, color: u32) -> Seq<u32> {
    Seq::new(old.len(), |i: int| if in_rect(i, x0, x1, y0, y1) { color } else { old[i] })
}

/// Every screen pixel of `[x0, x1) x [y0, y1)` has its entry in a buffer of
/// `len` entries, so that painting the rectangle writes inside the buffer.
pub open spec fn rect_in_buffer(len: int, x0: int, x1: int, y0: int, y1: int) -> bool {
    forall|k: int| len <= k < frame_len() ==> !#[trigger] in_rect(k, x0, x1, y0, y1)
}

/// The buffer index of the on-screen pixel `(px, py)` and its coordinates agree.
pub proof fn lemma_pixel_index(px: int, py: int)
    requires
        0 <= px < SCREEN_WIDTH,
        0 <= py,
    ensures
        pixel_x(py * SCREEN_WIDTH + px) == px,
        pixel_y(py * SCREEN_WIDTH + px) == py,
{
    lemma_fundamental_div_mod_converse(py * SCREEN_WIDTH + px, SCREEN_WIDTH as int, py, px);
}

/// Fills the pixels `[x_start, x_end) x [y_start, y_end)` with `color`.
pub fn fill_rect(
    buffer: &mut Vec<u32>,
    x_start: usize,
    x_end: usize,
    y_start: usize,
    y_end: usize,
    color: u32,
)
    requires
        rect_in_buffer(old(buffer)@.len() as int, x_start as int, x_end as int, y_start as int, y_end as int),
        x_end <= SCREEN_WIDTH,
        y_end <= SCREEN_HEIGHT,
    ensures
        final(buffer)@ == paint(
            old(buffer)@,
            x_start as int,
            x_end as int,
            y_start as int,
            y_end as int,
            color,
        ),
{
    let ghost orig = buffer@;
    if y_start >= y_end || x_start >= x_end {
        assert(buffer@ =~= paint(orig, x_start as int, x_end as int, y_start as int, y_end as int, color));
        return;
    }
    let mut py = y_start;
    while py < y_end
        invariant
            y_start <= py <= y_end <= SCREEN_HEIGHT,
            x_start < x_end <= SCREEN_WIDTH,
            rect_in_buffer(orig.len() as int, x_start as int, x_end as int, y_start as int, y_end as int),
            buffer@ == paint(orig, x_start as int, x_end as int, y_start as int, py as int, color),
        decreases y_end - py,
    {
        let ghost before_row = buffer@;
        let mut px = x_start;
        while px < x_end
            invariant
                x_start <= px <= x_end <= SCREEN_WIDTH,
                y_start <= py < y_end <= SCREEN_HEIGHT,
                rect_in_buffer(orig.len() as int, x_start as int, x_end as int, y_start as int, y_end as int),
                before_row == paint(orig, x_start as int, x_end as int, y_start as int, py as int, color),
                buffer@ == paint(before_row, x_start as int, px as int, py as int, py + 1, color),
            decreases x_end - px,
        {
            proof {
                lemma_pixel_index(px as int, py as int);
                let k = py * SCREEN_WIDTH + px;
                assert(in_rect(k, x_start as int, x_end as int, y_start as int, y_end as int));
            }
            let idx = py * SCREEN_WIDTH + px;
            let ghost cur = buffer@;
            buffer[idx] = color;
            proof {
                lemma_pixel_index(px as int, py as int);
                assert forall|i: int| 0 <= i < cur.len() implies #[trigger] buffer@[i]
                    == paint(before_row, x_start as int, px + 1, py as int, py + 1, color)[i] by {
                    if i != idx {
                        if pixel_y(i) == py && pixel_x(i) == px && 0 <= i < frame_len() {
                            assert(i == pixel_y(i) * SCREEN_WIDTH + pixel_x(i));
                        }
                    }
                }
                assert(buffer@ =~= paint(before_row, x_start as int, px + 1, py as int, py + 1, color));
            }
            px = px + 1;
        }
        assert(buffer@ =~= paint(orig, x_start as int, x_end as int, y_start as int, py + 1, color));
        py = py + 1;
    }
}

/// Clamps `v` into `[0, hi]`.
fn clamp_to(v: i64, hi: i64) -> (r: i64)
    requires
        0 <= hi,
    ensures
        r == if v < 0 { 0 } else if v > hi { hi } else { v },
{
    if v < 0 {
        0
    } else if v > hi {
        hi
    } else {
        v
    }
}

/// Coordinates up to this magnitude are handled exactly by `draw_rect_wide`.
pub open spec fn wide_coord(v: int) -> bool {
    -0x1_0000_0000 <= v <= 0x1_0000_0000
}

/// Paints the rectangle with top-left corner `(x, y)`, width `w` and height
/// `h` in `color`, clipped to the screen; 64-bit coordinates, so that sums of
/// two 32-bit coordinates can be passed.
pub fn draw_rect_wide(buffer: &mut Vec<u32>, x: i64, y: i64, w: i64, h: i64, color: u32)
    requires
        rect_in_buffer(old(buffer)@.len() as int, x as int, x + w, y as int, y + h),
        wide_coord(x as int),
        wide_coord(y as int),
        wide_coord(w as int),
        wide_coord(h as int),
    ensures
        final(buffer)@ == paint(old(buffer)@, x as int, x + w, y as int, y + h, color),
{
    let ghost orig = buffer@;
    let x_start = clamp_to(x, SCREEN_WIDTH as i64);
    let x_end = clamp_to(x + w, SCREEN_WIDTH as i64);
    let y_start = clamp_to(y, SCREEN_HEIGHT as i64);
    let y_end = clamp_to(y + h, SCREEN_HEIGHT as i64);
    assert forall|i: int| 0 <= i < frame_len() implies (in_rect(i, x as int, x + w, y as int, y + h)
        <==> #[trigger] in_rect(i, x_start as int, x_end as int, y_start as int, y_end as int)) by {
        assert(0 <= pixel_x(i) < SCREEN_WIDTH);
        assert(0 <= pixel_y(i) < SCREEN_HEIGHT);
    }
    if x_end <= x_start || y_end <= y_start {
        assert(buffer@ =~= paint(orig, x as int, x + w, y as int, y + h, color));
        return;
    }
    fill_rect(buffer, x_start as usize, x_end as usize, y_start as usize, y_end as usize, color);
    assert(buffer@ =~= paint(orig, x as int, x + w, y as int, y + h, color));
}

/// Paints the rectangle with top-left corner `(x, y)`, width `w` and height
/// `h` in `color`, clipped to the screen. A rectangle with a width or height
/// that is not positive paints nothing.
pub fn draw_rect(buffer: &mut Vec<u32>, x: i32, y: i32, w: i32, h: i32, color: u32)
    requires
        rect_in_buffer(old(buffer)@.len() as int, x as int, x + w, y as int, y + h),
    ensures
        final(buffer)@ == paint(old(buffer)@, x as int, x + w, y as int, y + h, color),
{
    draw_rect_wide(buffer, x as i64, y as i64, w as i64, h as i64, color);
}

/// Painting a rectangle sets the pixel in column `px` and row `py` of the
/// screen exactly when the pixel lies in the rectangle, and keeps it
/// otherwise.
pub proof fn lemma_paint_pixel(old: Seq<u32>, x0: int, x1: int, y0: int, y1: int, color: u32, px: int, py: int)
    requires
        0 <= px < SCREEN_WIDTH,
        0 <= py < SCREEN_HEIGHT,
        py * SCREEN_WIDTH + px < old.len(),
    ensures
        paint(old, x0, x1, y0, y1, color)[py * SCREEN_WIDTH + px] == (if x0 <= px < x1 && y0 <= py < y1 {
            color
        } else {
            old[py * SCREEN_WIDTH + px]
        }),
{
    lemma_pixel_index(px, py);
    assert(py * SCREEN_WIDTH + px < frame_len()) by (nonlinear_arith)
        requires
            0 <= px < SCREEN_WIDTH,
            0 <= py < SCREEN_HEIGHT,
    ;
}

} // verus!
