use road_fighter::palette::{ORANGE, PURPLE, RED, YELLOW};
use road_fighter::road::{enemy_spawn_x, fuel_spawn_x};
use road_fighter::spawn::{enemy_color, pick_enemy_spawn, pick_fuel_spawn};

#[test]
fn lane_positions() {
    assert_eq!(enemy_spawn_x(0), 249);
    assert_eq!(enemy_spawn_x(3), 519);
    assert_eq!(fuel_spawn_x(0), 251);
    assert_eq!(fuel_spawn_x(2), 431);
}

#[test]
fn enemy_colors_in_order() {
    assert_eq!(enemy_color(0), RED);
    assert_eq!(enemy_color(1), YELLOW);
    assert_eq!(enemy_color(2), PURPLE);
    assert_eq!(enemy_color(3), ORANGE);
}

#[test]
fn random_spawns_land_in_lanes() {
    for _ in 0..200 {
        let (x, color) = pick_enemy_spawn();
        assert!([249, 339, 429, 519].contains(&x));
        assert!([RED, YELLOW, PURPLE, ORANGE].contains(&color));
        let fx = pick_fuel_spawn();
        assert!([251, 341, 431, 521].contains(&fx));
    }
}
