use road_fighter::display::{parse_xdpyinfo_size, parse_xrandr_size};
use road_fighter::road::{enemy_spawn_x, fuel_spawn_x, ROAD_LEFT, ROAD_RIGHT, LANE_WIDTH};
use road_fighter::screen::{SCREEN_HEIGHT, SCREEN_WIDTH};
use road_fighter::session::{GameState, Session};
use road_fighter::text::draw_text;

#[test]
fn xrandr_reads_back_printed_sizes() {
    let sizes = [(0u32, 0u32), (1, 1), (800, 600), (4096, 2560), (u32::MAX, 7), (10, u32::MAX)];
    for (w, h) in sizes {
        let out = format!("eDP-1 connected {}x{}+{}+{}\nHDMI-1 connected 1x1+0+0\n", w, h, 1920, 0);
        assert_eq!(parse_xrandr_size(&out), Some((w, h)));
        let out = format!("DP-2 connected primary {}x{}+0+0 (normal) 600mm x 340mm", w, h);
        assert_eq!(parse_xrandr_size(&out), Some((w, h)));
    }
}

#[test]
fn xdpyinfo_reads_back_printed_dimensions() {
    for (w, h) in [(0u32, 0u32), (1920, 1080), (u32::MAX, u32::MAX)] {
        let out = format!("dimensions: {}x{} pixels (508x285 millimeters)\nresolution: 96x96 dots per inch\n", w, h);
        assert_eq!(parse_xdpyinfo_size(&out), Some((w, h)));
    }
}

#[test]
fn spawned_items_inside_their_lanes() {
    for lane in 0..4usize {
        let left = (ROAD_LEFT + lane * LANE_WIDTH) as i32;
        let right = left + LANE_WIDTH as i32;
        let ex = enemy_spawn_x(lane);
        let fx = fuel_spawn_x(lane);
        assert!(left <= ex && ex + 32 <= right);
        assert!(left <= fx && fx + 28 <= right);
        assert!(ROAD_LEFT as i32 <= ex && ex + 32 <= ROAD_RIGHT as i32);
    }
}

#[test]
fn text_stays_in_its_cells() {
    const BG: u32 = 7;
    let mut buf = vec![BG; SCREEN_WIDTH * SCREEN_HEIGHT];
    draw_text(&mut buf, "W8", 50, 40, 2, 1);
    for (i, &p) in buf.iter().enumerate() {
        if p != BG {
            let (x, y) = (i % SCREEN_WIDTH, i / SCREEN_WIDTH);
            assert!((40..54).contains(&y));
            assert!((50..60).contains(&x) || (62..72).contains(&x), "pixel {} {}", x, y);
        }
    }
}

#[test]
fn high_score_never_decreases_over_runs() {
    let mut s = Session::new();
    let mut best = 0;
    for run in 0..4 {
        s.begin_frame(true);
        assert_eq!(s.state(), GameState::Playing);
        for _ in 0..(3 - run) {
            s.collect_fuel();
            s.end_frame();
        }
        while s.state() == GameState::Playing {
            let before = s.high_score();
            s.lose_life();
            assert!(s.high_score() >= before);
        }
        best = best.max(51 * (3 - run));
        assert_eq!(s.high_score(), best);
        s.begin_frame(true);
        assert_eq!(s.state(), GameState::Title);
    }
}
