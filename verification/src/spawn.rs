//! Where new enemy cars and fuel cans enter the road: a lane picked at
//! random, and for an enemy car a color picked at random.

use vstd::prelude::*;
use rand::Rng;

verus! {

use crate::palette::{ORANGE, PURPLE, RED, YELLOW};
use crate::road::{enemy_spawn_x, fuel_spawn_x, lane_item_x, ENEMY_WIDTH, FUEL_WIDTH, LANE_COUNT};

/// The random number generator of the current thread.
#[verifier::external_type_specification]
#[verifier::external_body]
pub struct ExThreadRng(rand::rngs::ThreadRng);

/// `rand::thread_rng`: the generator of the current thread, seeded by the
/// system. Nothing is claimed of it; it panics, as its source shows, when
/// the system gives no randomness to seed it.
#[verifier::external_body]
fn thread_rng() -> rand::rngs::ThreadRng {
    rand::thread_rng()
}

/// `Rng::gen_range(0..upper)` on `rng`: a number below `upper`. The range is
/// not empty, so the call does not panic. Which number comes out is left
/// open: it is random.
#[verifier::external_body]
fn gen_index(rng: &mut rand::rngs::ThreadRng, upper: usize) -> (n: usize)
    requires
        upper > 0,
    ensures
        n < upper,
{
    rng.gen_range(0..upper)
}

/// Number of enemy car colors.
pub const ENEMY_COLOR_COUNT: usize = 4;

/// The enemy car colors, by index.
pub open spec fn enemy_color_at(i: int) -> u32 {
    if i == 0 {
        RED
    } else if i == 1 {
        YELLOW
    } else if i == 2 {
        PURPLE
    } else {
        ORANGE
    }
}

/// The enemy car color with index `i`: red, yellow, purple, orange.
pub fn enemy_color(i: usize) -> (color: u32)
    requires
        i < ENEMY_COLOR_COUNT,
    ensures
        color == enemy_color_at(i as int),
{
    let colors: [u32; 4] = [RED, YELLOW, PURPLE, ORANGE];
    colors[i]
}

/// Where and in which color a new enemy car enters: in a random lane, with
/// a random one of the four enemy colors.
pub fn pick_enemy_spawn() -> (spawn: (i32, u32))
    ensures
        exists|lane: int| 0 <= lane < LANE_COUNT && spawn.0 == lane_item_x(lane, ENEMY_WIDTH as int),
        exists|i: int| 0 <= i < ENEMY_COLOR_COUNT && spawn.1 == enemy_color_at(i),
{
    let mut rng = thread_rng();
    let lane = gen_index(&mut rng, LANE_COUNT);
    let x = enemy_spawn_x(lane);
    let i = gen_index(&mut rng, ENEMY_COLOR_COUNT);
    let color = enemy_color(i);
    (x, color)
}

/// Where a new fuel can enters: in a random lane.
pub fn pick_fuel_spawn() -> (x: i32)
    ensures
        exists|lane: int| 0 <= lane < LANE_COUNT && x == lane_item_x(lane, FUEL_WIDTH as int),
{
    let mut rng = thread_rng();
    let lane = gen_index(&mut rng, LANE_COUNT);
    fuel_spawn_x(lane)
}

/// The four enemy colors are four different colors.
pub proof fn lemma_enemy_colors_distinct(i: int, j: int)
    requires
        0 <= i < ENEMY_COLOR_COUNT,
        0 <= j < ENEMY_COLOR_COUNT,
        i != j,
    ensures
        enemy_color_at(i) != enemy_color_at(j),
{
}

} // verus!
