use road_fighter::font::get_font_data;
use road_fighter::palette::{BLUE, DARK_GRAY, GRASS_GREEN, GRAY, SKY_BLUE, WHITE};
use road_fighter::road::draw_road;
use road_fighter::screen::{draw_rect, fill_rect, SCREEN_HEIGHT, SCREEN_WIDTH};
use road_fighter::sprites::{draw_life_icons, draw_mini_car};
use road_fighter::text::{draw_text, text_fits};

const BG: u32 = 0x123456;

fn frame() -> Vec<u32> {
    vec![BG; SCREEN_WIDTH * SCREEN_HEIGHT]
}

fn px(buf: &[u32], x: usize, y: usize) -> u32 {
    buf[y * SCREEN_WIDTH + x]
}

fn lit(buf: &[u32]) -> usize {
    buf.iter().filter(|&&p| p != BG).count()
}

/// The glyph art of the font, as rows of `#` and spaces.
const ART: [[&str; 7]; 36] = [
    [" ### ", "#   #", "#   #", "#   #", "#   #", "#   #", " ### "],
    ["  #  ", " ##  ", "  #  ", "  #  ", "  #  ", "  #  ", " ### "],
    [" ### ", "#   #", "    #", " ### ", "#    ", "#    ", "#####"],
    [" ### ", "#   #", "    #", "  ## ", "    #", "#   #", " ### "],
    ["   # ", "  ## ", " # # ", "#  # ", "#####", "   # ", "   # "],
    ["#####", "#    ", "#    ", " ### ", "    #", "#   #", " ### "],
    [" ### ", "#    ", "#    ", "#### ", "#   #", "#   #", " ### "],
    ["#####", "    #", "   # ", "  #  ", " #   ", " #   ", " #   "],
    [" ### ", "#   #", "#   #", " ### ", "#   #", "#   #", " ### "],
    [" ### ", "#   #", "#   #", " ####", "    #", "    #", " ### "],
    [" ### ", "#   #", "#   #", "#####", "#   #", "#   #", "#   #"],
    ["#### ", "#   #", "#   #", "#### ", "#   #", "#   #", "#### "],
    [" ### ", "#   #", "#    ", "#    ", "#    ", "#   #", " ### "],
    ["#### ", "#   #", "#   #", "#   #", "#   #", "#   #", "#### "],
    ["#####", "#    ", "#    ", "###  ", "#    ", "#    ", "#####"],
    ["#####", "#    ", "#    ", "###  ", "#    ", "#    ", "#    "],
    [" ### ", "#    ", "#    ", "#  ##", "#   #", "#   #", " ### "],
    ["#   #", "#   #", "#   #", "#####", "#   #", "#   #", "#   #"],
    [" ### ", "  #  ", "  #  ", "  #  ", "  #  ", "  #  ", " ### "],
    ["  ###", "   # ", "   # ", "   # ", "   # ", "#  # ", " ##  "],
    ["#   #", "#  # ", "##   ", "#    ", "##   ", "#  # ", "#   #"],
    ["#    ", "#    ", "#    ", "#    ", "#    ", "#    ", "#####"],
    ["#   #", "## ##", "# # #", "#   #", "#   #", "#   #", "#   #"],
    ["#   #", "##  #", "# # #", "#  ##", "#   #", "#   #", "#   #"],
    [" ### ", "#   #", "#   #", "#   #", "#   #", "#   #", " ### "],
    ["#### ", "#   #", "#   #", "#### ", "#    ", "#    ", "#    "],
    [" ### ", "#   #", "#   #", "#   #", "# # #", "#  # ", " ## #"],
    ["#### ", "#   #", "#   #", "#### ", "#  # ", "#   #", "#   #"],
    [" ####", "#    ", "#    ", " ### ", "    #", "    #", "#### "],
    ["#####", "  #  ", "  #  ", "  #  ", "  #  ", "  #  ", "  #  "],
    ["#   #", "#   #", "#   #", "#   #", "#   #", "#   #", " ### "],
    ["#   #", "#   #", "#   #", "#   #", " # # ", " # # ", "  #  "],
    ["#   #", "#   #", "#   #", "# # #", "# # #", "## ##", "#   #"],
    ["#   #", " # # ", "  #  ", "  #  ", "  #  ", " # # ", "#   #"],
    ["#   #", " # # ", "  #  ", "  #  ", "  #  ", "  #  ", "  #  "],
    ["#####", "   # ", "  #  ", " #   ", "#    ", "#    ", "#####"],
];

#[test]
fn font_matches_glyph_art() {
    let font = get_font_data();
    assert_eq!(font.len(), 36);
    for (g, glyph) in font.iter().enumerate() {
        assert_eq!(glyph.len(), 7);
        for (r, row) in glyph.iter().enumerate() {
            let expected: Vec<bool> = ART[g][r].chars().map(|c| c == '#').collect();
            assert_eq!(row, &expected, "glyph {} row {}", g, r);
        }
    }
}

#[test]
fn fill_rect_paints_exact_block() {
    let mut buf = frame();
    fill_rect(&mut buf, 10, 13, 20, 22, WHITE);
    assert_eq!(lit(&buf), 6);
    assert_eq!(px(&buf, 10, 20), WHITE);
    assert_eq!(px(&buf, 12, 21), WHITE);
    assert_eq!(px(&buf, 13, 21), BG);
    assert_eq!(px(&buf, 12, 22), BG);
}

#[test]
fn draw_rect_clips_to_screen() {
    let mut buf = frame();
    draw_rect(&mut buf, -5, -5, 10, 10, WHITE);
    assert_eq!(lit(&buf), 25);
    assert_eq!(px(&buf, 4, 4), WHITE);
    assert_eq!(px(&buf, 5, 0), BG);
    let mut buf = frame();
    draw_rect(&mut buf, 795, 598, 100, 100, WHITE);
    assert_eq!(lit(&buf), 10);
    assert_eq!(px(&buf, 799, 599), WHITE);
}

#[test]
fn draw_rect_empty_sizes_draw_nothing() {
    let mut buf = frame();
    draw_rect(&mut buf, 10, 10, 0, 5, WHITE);
    draw_rect(&mut buf, 10, 10, 5, -3, WHITE);
    draw_rect(&mut buf, 900, 10, 5, 5, WHITE);
    assert_eq!(lit(&buf), 0);
}

#[test]
fn draw_text_letter_a_at_scale_one() {
    let mut buf = frame();
    draw_text(&mut buf, "A", 100, 50, 1, WHITE);
    for r in 0..7 {
        for c in 0..5 {
            let want = ART[10][r].as_bytes()[c] == b'#';
            assert_eq!(px(&buf, 100 + c, 50 + r) == WHITE, want, "row {} col {}", r, c);
        }
    }
    let count: usize = ART[10].iter().map(|r| r.matches('#').count()).sum();
    assert_eq!(lit(&buf), count);
}

#[test]
fn draw_text_scale_two_squares_and_spacing() {
    let mut buf = frame();
    draw_text(&mut buf, "1 1", 0, 0, 2, WHITE);
    // '1' row 0 is "  #  ": column 2 lit, a 2x2 square at (4..6, 0..2).
    assert_eq!(px(&buf, 4, 0), WHITE);
    assert_eq!(px(&buf, 5, 1), WHITE);
    assert_eq!(px(&buf, 3, 0), BG);
    // the third character starts at 2 * 6 * 2 = 24
    assert_eq!(px(&buf, 24 + 4, 0), WHITE);
    // the space draws nothing
    for x in 12..24 {
        for y in 0..14 {
            assert_eq!(px(&buf, x, y), BG);
        }
    }
}

#[test]
fn draw_text_colon_dots() {
    let mut buf = frame();
    draw_text(&mut buf, ":", 10, 10, 2, WHITE);
    assert_eq!(lit(&buf), 8);
    assert_eq!(px(&buf, 12, 12), WHITE);
    assert_eq!(px(&buf, 13, 13), WHITE);
    assert_eq!(px(&buf, 12, 16), WHITE);
    assert_eq!(px(&buf, 13, 17), WHITE);
    assert_eq!(px(&buf, 12, 14), BG);
}

#[test]
fn draw_text_ignores_case_and_unknown_chars() {
    let mut a = frame();
    let mut b = frame();
    draw_text(&mut a, "Road Fighter!", 20, 30, 3, WHITE);
    draw_text(&mut b, "ROAD FIGHTER?", 20, 30, 3, WHITE);
    assert_eq!(a, b);
    let mut c = frame();
    draw_text(&mut c, "-!?.", 20, 30, 3, WHITE);
    assert_eq!(lit(&c), 0);
}

#[test]
fn draw_text_nonpositive_scale_draws_nothing() {
    let mut buf = frame();
    draw_text(&mut buf, "SCORE:10", 20, 30, 0, WHITE);
    draw_text(&mut buf, "SCORE:10", 200, 300, -2, WHITE);
    assert_eq!(lit(&buf), 0);
}

#[test]
fn draw_text_off_screen_is_clipped() {
    let mut buf = frame();
    draw_text(&mut buf, "8", 797, 598, 1, WHITE);
    // '8' row 0 is " ### ": columns 1..4 of row 0, only x = 798, 799 on screen
    assert_eq!(px(&buf, 798, 598), WHITE);
    assert_eq!(px(&buf, 799, 598), WHITE);
    assert_eq!(px(&buf, 797, 598), BG);
}

#[test]
fn text_fits_rejects_overflowing_layouts() {
    assert!(text_fits("GAME OVER", 280, 190, 3));
    assert!(text_fits("", i32::MAX, i32::MAX, 1000));
    assert!(!text_fits("", 0, 0, i32::MAX));
    assert!(!text_fits("A", 0, 0, i32::MAX / 5));
    assert!(text_fits("AB", i32::MAX - 10, 0, 1));
    assert!(!text_fits("AB", i32::MAX - 5, 0, 1));
    assert!(text_fits("A B", 0, 0, 1));
}

#[test]
fn mini_car_body_and_window() {
    let mut buf = frame();
    draw_mini_car(&mut buf, 70, 85, BLUE);
    assert_eq!(px(&buf, 70, 85), BLUE);
    assert_eq!(px(&buf, 93, 124), BLUE);
    assert_eq!(px(&buf, 74, 89), SKY_BLUE);
    assert_eq!(px(&buf, 89, 93), SKY_BLUE);
    assert_eq!(px(&buf, 90, 93), BLUE);
    assert_eq!(px(&buf, 94, 85), BG);
    assert_eq!(lit(&buf), 24 * 40);
}

#[test]
fn life_icons_one_per_life() {
    let mut buf = frame();
    draw_life_icons(&mut buf, 3);
    assert_eq!(px(&buf, 70, 85), BLUE);
    assert_eq!(px(&buf, 100, 85), BLUE);
    assert_eq!(px(&buf, 130, 85), BLUE);
    assert_eq!(px(&buf, 160, 85), BG);
    assert_eq!(lit(&buf), 3 * 24 * 40);
    let mut none = frame();
    draw_life_icons(&mut none, 0);
    draw_life_icons(&mut none, -2);
    assert_eq!(lit(&none), 0);
}

#[test]
fn road_background_columns() {
    let mut buf = frame();
    assert!(draw_road(&mut buf));
    for y in [0, 300, 599] {
        assert_eq!(px(&buf, 0, y), GRASS_GREEN);
        assert_eq!(px(&buf, 219, y), GRASS_GREEN);
        assert_eq!(px(&buf, 220, y), WHITE);
        assert_eq!(px(&buf, 227, y), WHITE);
        assert_eq!(px(&buf, 228, y), GRAY);
        assert_eq!(px(&buf, 571, y), GRAY);
        assert_eq!(px(&buf, 572, y), WHITE);
        assert_eq!(px(&buf, 579, y), WHITE);
        assert_eq!(px(&buf, 580, y), GRASS_GREEN);
        assert_eq!(px(&buf, 799, y), GRASS_GREEN);
    }
    assert!(!buf.contains(&DARK_GRAY));
}

#[test]
fn road_skips_wrong_sized_buffer() {
    let mut buf = vec![BG; 100];
    assert!(!draw_road(&mut buf));
    assert_eq!(buf, vec![BG; 100]);
}

#[test]
fn short_buffer_holds_the_drawn_rows() {
    // a buffer of the first 20 rows only
    let mut buf = vec![BG; SCREEN_WIDTH * 20];
    draw_text(&mut buf, "HI", 5, 5, 1, WHITE);
    draw_rect(&mut buf, 0, 0, 3, 3, WHITE);
    fill_rect(&mut buf, 700, 710, 10, 20, WHITE);
    assert_eq!(buf.len(), SCREEN_WIDTH * 20);
    assert_eq!(px(&buf, 5, 5), WHITE);
    assert_eq!(px(&buf, 709, 19), WHITE);
    assert_eq!(px(&buf, 1, 1), WHITE);
}
