//! The road: its place on the screen, its lanes, and the frame background
//! of grass, road surface and white road edges.

use vstd::prelude::*;

verus! {

use crate::palette::{DARK_GRAY, GRASS_GREEN, GRAY, WHITE};
use crate::screen::{
    draw_rect,
    fill_rect,
    frame_len,
    pixel_x,
    pixel_y,
    SCREEN_HEIGHT,
    SCREEN_WIDTH,
};

/// Width of the road in pixels.
pub const ROAD_WIDTH: usize = 360;

/// Number of lanes.
pub const LANE_COUNT: usize = 4;

/// Width of a lane in pixels.
pub const LANE_WIDTH: usize = ROAD_WIDTH / LANE_COUNT;

/// Left edge of the road: the road is centered on the screen.
pub const ROAD_LEFT: usize = (SCREEN_WIDTH - ROAD_WIDTH) / 2;

/// Right edge of the road (exclusive).
pub const ROAD_RIGHT: usize = ROAD_LEFT + ROAD_WIDTH;

/// Width of the white edge lines on both sides of the road.
pub const EDGE_WIDTH: usize = 8;

/// Width of an enemy car.
pub const ENEMY_WIDTH: usize = 32;

/// Width of a fuel can.
pub const FUEL_WIDTH: usize = 28;

/// Color of the background in column `px`: grass beside the road, white
/// edge lines at both sides of it, gray surface between them.
pub open spec fn road_color(px: int) -> u32 {
    if px < ROAD_LEFT || px >= ROAD_RIGHT {
        GRASS_GREEN
    } else if px < ROAD_LEFT + EDGE_WIDTH || px >= ROAD_RIGHT - EDGE_WIDTH {
        WHITE
    } else {
        GRAY
    }
}

/// The background frame.
pub open spec fn road_frame() -> Seq<u32> {
    Seq::new(frame_len() as nat, |k: int| road_color(pixel_x(k)))
}

/// Draws the background of a frame: grass, road and road edges. A buffer
/// that is not exactly one frame is left as it is; returns whether the
/// background was drawn.
pub fn draw_road(buffer: &mut Vec<u32>) -> (drawn: bool)
    ensures
        drawn == (old(buffer)@.len() == frame_len()),
        drawn ==> final(buffer)@ == road_frame(),
        !drawn ==> final(buffer)@ == old(buffer)@,
{
    if buffer.len() != SCREEN_WIDTH * SCREEN_HEIGHT {
        return false;
    }
    let mut i: usize = 0;
    while i < buffer.len()
        invariant
            buffer@.len() == frame_len(),
            i <= buffer@.len(),
            forall|k: int| 0 <= k < i ==> buffer@[k] == DARK_GRAY,
        decreases buffer@.len() - i,
    {
        buffer[i] = DARK_GRAY;
        i = i + 1;
    }
    let ghost cleared = buffer@;
    fill_rect(buffer, 0, ROAD_LEFT, 0, SCREEN_HEIGHT, GRASS_GREEN);
    fill_rect(buffer, ROAD_RIGHT, SCREEN_WIDTH, 0, SCREEN_HEIGHT, GRASS_GREEN);
    fill_rect(buffer, ROAD_LEFT, ROAD_RIGHT, 0, SCREEN_HEIGHT, GRAY);
    draw_rect(buffer, ROAD_LEFT as i32, 0, EDGE_WIDTH as i32, SCREEN_HEIGHT as i32, WHITE);
    draw_rect(
        buffer,
        (ROAD_RIGHT - EDGE_WIDTH) as i32,
        0,
        EDGE_WIDTH as i32,
        SCREEN_HEIGHT as i32,
        WHITE,
    );
    assert forall|k: int| 0 <= k < frame_len() implies #[trigger] buffer@[k] == road_frame()[k] by {
        assert(0 <= pixel_x(k) < SCREEN_WIDTH);
        assert(0 <= pixel_y(k) < SCREEN_HEIGHT);
    }
    assert(buffer@ =~= road_frame());
    true
}

/// Left edge of an item of width `item_width` centered in lane `lane`.
pub open spec fn lane_item_x(lane: int, item_width: int) -> int {
    ROAD_LEFT + lane * LANE_WIDTH + (LANE_WIDTH - item_width) / 2
}

/// Left edge of an enemy car entering in lane `lane`.
pub fn enemy_spawn_x(lane: usize) -> (x: i32)
    requires
        lane < LANE_COUNT,
    ensures
        x == lane_item_x(lane as int, ENEMY_WIDTH as int),
{
    (ROAD_LEFT + lane * LANE_WIDTH + (LANE_WIDTH - ENEMY_WIDTH) / 2) as i32
}

/// Left edge of a fuel can entering in lane `lane`.
pub fn fuel_spawn_x(lane: usize) -> (x: i32)
    requires
        lane < LANE_COUNT,
    ensures
        x == lane_item_x(lane as int, FUEL_WIDTH as int),
{
    (ROAD_LEFT + lane * LANE_WIDTH + (LANE_WIDTH - FUEL_WIDTH) / 2) as i32
}

/// Items entering a lane lie inside it: an item no wider than a lane,
/// centered in lane `lane`, stays between the lane's edges and so on the
/// road; items in different lanes do not overlap.
pub proof fn lemma_items_inside_lanes(lane: int, other: int, item_width: int)
    requires
        0 <= lane < LANE_COUNT,
        0 <= other < LANE_COUNT,
        0 <= item_width <= LANE_WIDTH,
    ensures
        ROAD_LEFT + lane * LANE_WIDTH <= lane_item_x(lane, item_width),
        lane_item_x(lane, item_width) + item_width <= ROAD_LEFT + (lane + 1) * LANE_WIDTH,
        ROAD_LEFT <= lane_item_x(lane, item_width),
        lane_item_x(lane, item_width) + item_width <= ROAD_RIGHT,
        lane < other ==> lane_item_x(lane, item_width) + item_width <= lane_item_x(other, item_width),
{
}

/// The road lies in the middle of the screen: the background is the same
/// seen from the left and from the right, with grass on both sides, a white
/// edge line on each side and a gray surface of four lanes between them.
pub proof fn lemma_road_symmetric(px: int)
    requires
        0 <= px < SCREEN_WIDTH,
    ensures
        road_color(px) == road_color(SCREEN_WIDTH - 1 - px),
        ROAD_LEFT + ROAD_RIGHT == SCREEN_WIDTH,
        ROAD_RIGHT - ROAD_LEFT == LANE_COUNT * LANE_WIDTH,
        road_color(px) == GRASS_GREEN <==> (px < ROAD_LEFT || px >= ROAD_RIGHT),
        road_color(px) == WHITE <==> (ROAD_LEFT <= px < ROAD_LEFT + EDGE_WIDTH || ROAD_RIGHT
            - EDGE_WIDTH <= px < ROAD_RIGHT),
{
}

} // verus!
