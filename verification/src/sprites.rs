//! Sprites drawn at integer positions: the small car of the lives display.

use vstd::prelude::*;

verus! {

use crate::palette::{BLUE, SKY_BLUE};
use crate::screen::{draw_rect_wide, frame_len, in_rect, paint, rect_in_buffer};
use crate::text::fits_i32;

/// The buffer after drawing a small car with its top-left corner at
/// `(x, y)`: a 24 x 40 body in `color` with a 16 x 5 window in sky blue,
/// 4 pixels in from the body's top-left corner.
pub open spec fn mini_car_painted(old: Seq<u32>, x: int, y: int, color: u32) -> Seq<u32> {
    paint(paint(old, x, x + 24, y, y + 40, color), x + 4, x + 20, y + 4, y + 9, SKY_BLUE)
}

/// Draws a small car with its top-left corner at `(x, y)`.
pub fn draw_mini_car(buffer: &mut Vec<u32>, x: i32, y: i32, color: u32)
    requires
        rect_in_buffer(old(buffer)@.len() as int, x as int, x + 24, y as int, y + 40),
        fits_i32(y + 4),
    ensures
        final(buffer)@ == mini_car_painted(old(buffer)@, x as int, y as int, color),
{
    draw_rect_wide(buffer, x as i64, y as i64, 24, 40, color);
    assert forall|k: int| buffer@.len() <= k < frame_len() implies !#[trigger] in_rect(
        k,
        x + 4,
        x + 4 + 16,
        y + 4,
        y + 4 + 5,
    ) by {
        assert(!in_rect(k, x as int, x + 24, y as int, y + 40));
    }
    draw_rect_wide(buffer, x as i64 + 4, (y + 4) as i64, 16, 5, SKY_BLUE);
}

/// Left edge of the `i`-th life icon.
pub open spec fn life_icon_x(i: int) -> int {
    70 + i * 30
}

/// Top edge of the life icons.
pub const LIFE_ICON_Y: i32 = 85;

/// The buffer after drawing the first `n` life icons, left to right.
pub open spec fn life_icons_painted(old: Seq<u32>, n: int) -> Seq<u32>
    decreases n,
{
    if n <= 0 {
        old
    } else {
        mini_car_painted(life_icons_painted(old, n - 1), life_icon_x(n - 1), LIFE_ICON_Y as int, BLUE)
    }
}

/// Draws one small blue car per remaining life, 30 pixels apart; nothing
/// when `lives` is not positive.
pub fn draw_life_icons(buffer: &mut Vec<u32>, lives: i32)
    requires
        forall|i: int|
            0 <= i < lives ==> #[trigger] rect_in_buffer(
                old(buffer)@.len() as int,
                life_icon_x(i),
                life_icon_x(i) + 24,
                LIFE_ICON_Y as int,
                LIFE_ICON_Y + 40,
            ),
        lives <= 0 || fits_i32(life_icon_x(lives - 1)),
    ensures
        final(buffer)@ == life_icons_painted(old(buffer)@, lives as int),
{
    let ghost orig = buffer@;
    let mut i: i32 = 0;
    while i < lives
        invariant
            0 <= i,
            lives <= 0 ==> i == 0,
            lives > 0 ==> i <= lives,
            lives <= 0 || fits_i32(life_icon_x(lives - 1)),
            forall|j: int|
                0 <= j < lives ==> #[trigger] rect_in_buffer(
                    orig.len() as int,
                    life_icon_x(j),
                    life_icon_x(j) + 24,
                    LIFE_ICON_Y as int,
                    LIFE_ICON_Y + 40,
                ),
            buffer@.len() == orig.len(),
            buffer@ == life_icons_painted(orig, i as int),
        decreases lives - i,
    {
        assert(rect_in_buffer(orig.len() as int, life_icon_x(i as int), life_icon_x(i as int) + 24, LIFE_ICON_Y as int, LIFE_ICON_Y + 40));
        draw_mini_car(buffer, 70 + i * 30, LIFE_ICON_Y, BLUE);
        i = i + 1;
    }
    assert(lives <= 0 ==> life_icons_painted(orig, lives as int) == orig);
}

} // verus!
