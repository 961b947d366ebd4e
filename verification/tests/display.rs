use road_fighter::display::{
    centered_window_position, parse_u32_chars, parse_xdpyinfo_size, parse_xrandr_size,
    DEFAULT_SCREEN_HEIGHT, DEFAULT_SCREEN_WIDTH,
};

const XRANDR: &str = "Screen 0: minimum 1 x 1, current 4096 x 2560, maximum 16384 x 16384
Virtual-1 connected primary 4096x2560+0+0 (normal left inverted right x axis y axis) 0mm x 0mm
   4096x2560     59.99*+
   1920x1080     60.00
Virtual-2 disconnected (normal left inverted right x axis y axis)
";

#[test]
fn xrandr_connected_output() {
    assert_eq!(parse_xrandr_size(XRANDR), Some((4096, 2560)));
}

#[test]
fn xrandr_without_connected_output() {
    let out = "Screen 0: minimum 1 x 1\nVirtual-2 disconnected (normal)\n   1920x1080+0+0 60.00\n";
    assert_eq!(parse_xrandr_size(out), None);
    assert_eq!(parse_xrandr_size(""), None);
}

#[test]
fn xrandr_connected_without_geometry_then_later_line() {
    let out = "HDMI-1 connected (normal left)\nDP-1 connected 1280x1024+1920+0 (normal)\n";
    assert_eq!(parse_xrandr_size(out), Some((1280, 1024)));
}

#[test]
fn xrandr_word_rules() {
    // the size is read up to the first '+'
    assert_eq!(parse_xrandr_size("A connected 800x600+10+20\n"), Some((800, 600)));
    // a leading '+' leaves nothing before it
    assert_eq!(parse_xrandr_size("A connected +800x600+0+0\n"), None);
    // more than one 'x'
    assert_eq!(parse_xrandr_size("A connected 800x600x2+0+0\n"), None);
    // too large for u32, then a later good word on the same line
    assert_eq!(parse_xrandr_size("A connected 99999999999x1+0 640x480+0+0\n"), Some((640, 480)));
    // carriage returns and tabs are white space
    assert_eq!(parse_xrandr_size("A\tconnected\t1024x768+0+0\r\n"), None);
    assert_eq!(parse_xrandr_size("A connected\t1024x768+0+0\r\n"), Some((1024, 768)));
}

#[test]
fn xdpyinfo_dimensions_line() {
    let out = "name of display:    :0\nscreen #0:\n  dimensions:    4096x2560 pixels (1083x677 millimeters)\n  resolution:    96x96 dots per inch\n";
    assert_eq!(parse_xdpyinfo_size(out), Some((4096, 2560)));
}

#[test]
fn xdpyinfo_second_word_only() {
    assert_eq!(parse_xdpyinfo_size("dimensions: 12x34\n"), Some((12, 34)));
    assert_eq!(parse_xdpyinfo_size("dimensions:\n"), None);
    assert_eq!(parse_xdpyinfo_size("x dimensions: 12x34\n"), None);
    assert_eq!(parse_xdpyinfo_size("dimensions: 12 x34\ndimensions: 5x6"), Some((5, 6)));
}

#[test]
fn parse_u32_like_from_str() {
    let cases = ["0", "42", "+7", "4294967295", "4294967296", "", "+", "-1", "1a", "007", "++1"];
    for c in cases {
        let chars: Vec<char> = c.chars().collect();
        assert_eq!(parse_u32_chars(&chars), c.parse::<u32>().ok(), "{:?}", c);
    }
}

#[test]
fn window_is_centered() {
    assert_eq!(centered_window_position(1920, 1080), (560, 240));
    assert_eq!(centered_window_position(800, 600), (0, 0));
    assert_eq!(centered_window_position(4096, 2560), (1648, 980));
    assert_eq!((DEFAULT_SCREEN_WIDTH, DEFAULT_SCREEN_HEIGHT), (1920, 1080));
}
