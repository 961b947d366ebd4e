//! The 5x7 bitmap font: glyphs for the digits `0`-`9` and the letters
//! `A`-`Z`. Each glyph is seven rows of five pixels; row 0 is the top row and
//! column 0 the leftmost column.

use vstd::prelude::*;

verus! {

/// Number of glyphs in the font: ten digits and twenty-six letters.
pub const GLYPH_COUNT: usize = 36;

/// Rows of a glyph.
pub const GLYPH_ROWS: usize = 7;

/// Columns of a glyph.
pub const GLYPH_COLS: usize = 5;

/// The pixels of glyph `g` packed into 35 bits: written in binary, the
/// groups of five digits are the rows from top to bottom, each read from
/// left to right (`1` is a lit pixel).
pub open spec fn glyph_bits(g: int) -> u64 {
    if g == 0 {
        0b01110_10001_10001_10001_10001_10001_01110  // 0
    } else if g == 1 {
        0b00100_01100_00100_00100_00100_00100_01110  // 1
    } else if g == 2 {
        0b01110_10001_00001_01110_10000_10000_11111  // 2
    } else if g == 3 {
        0b01110_10001_00001_00110_00001_10001_01110  // 3
    } else if g == 4 {
        0b00010_00110_01010_10010_11111_00010_00010  // 4
    } else if g == 5 {
        0b11111_10000_10000_01110_00001_10001_01110  // 5
    } else if g == 6 {
        0b01110_10000_10000_11110_10001_10001_01110  // 6
    } else if g == 7 {
        0b11111_00001_00010_00100_01000_01000_01000  // 7
    } else if g == 8 {
        0b01110_10001_10001_01110_10001_10001_01110  // 8
    } else if g == 9 {
        0b01110_10001_10001_01111_00001_00001_01110  // 9
    } else if g == 10 {
        0b01110_10001_10001_11111_10001_10001_10001  // A
    } else if g == 11 {
        0b11110_10001_10001_11110_10001_10001_11110  // B
    } else if g == 12 {
        0b01110_10001_10000_10000_10000_10001_01110  // C
    } else if g == 13 {
        0b11110_10001_10001_10001_10001_10001_11110  // D
    } else if g == 14 {
        0b11111_10000_10000_11100_10000_10000_11111  // E
    } else if g == 15 {
        0b11111_10000_10000_11100_10000_10000_10000  // F
    } else if g == 16 {
        0b01110_10000_10000_10011_10001_10001_01110  // G
    } else if g == 17 {
        0b10001_10001_10001_11111_10001_10001_10001  // H
    } else if g == 18 {
        0b01110_00100_00100_00100_00100_00100_01110  // I
    } else if g == 19 {
        0b00111_00010_00010_00010_00010_10010_01100  // J
    } else if g == 20 {
        0b10001_10010_11000_10000_11000_10010_10001  // K
    } else if g == 21 {
        0b10000_10000_10000_10000_10000_10000_11111  // L
    } else if g == 22 {
        0b10001_11011_10101_10001_10001_10001_10001  // M
    } else if g == 23 {
        0b10001_11001_10101_10011_10001_10001_10001  // N
    } else if g == 24 {
        0b01110_10001_10001_10001_10001_10001_01110  // O
    } else if g == 25 {
        0b11110_10001_10001_11110_10000_10000_10000  // P
    } else if g == 26 {
        0b01110_10001_10001_10001_10101_10010_01101  // Q
    } else if g == 27 {
        0b11110_10001_10001_11110_10010_10001_10001  // R
    } else if g == 28 {
        0b01111_10000_10000_01110_00001_00001_11110  // S
    } else if g == 29 {
        0b11111_00100_00100_00100_00100_00100_00100  // T
    } else if g == 30 {
        0b10001_10001_10001_10001_10001_10001_01110  // U
    } else if g == 31 {
        0b10001_10001_10001_10001_01010_01010_00100  // V
    } else if g == 32 {
        0b10001_10001_10001_10101_10101_11011_10001  // W
    } else if g == 33 {
        0b10001_01010_00100_00100_00100_01010_10001  // X
    } else if g == 34 {
        0b10001_01010_00100_00100_00100_00100_00100  // Y
    } else if g == 35 {
        0b11111_00010_00100_01000_10000_10000_11111  // Z
    } else {
        0
    }
}

/// Pixel `(row, col)` of glyph `g` is lit.
pub open spec fn glyph_pixel(g: int, row: int, col: int) -> bool {
    (glyph_bits(g) >> ((34 - (row * 5 + col)) as u64)) & 1u64 == 1u64
}

/// The whole font: glyph, then row, then column.
pub open spec fn font_model() -> Seq<Seq<Seq<bool>>> {
    Seq::new(
        GLYPH_COUNT as nat,
        |g: int| Seq::new(GLYPH_ROWS as nat, |r: int| Seq::new(GLYPH_COLS as nat, |c: int| glyph_pixel(g, r, c))),
    )
}

/// The glyph that renders `ch`: digits first, then letters; a lower-case
/// letter renders as its upper-case form. Other characters have no glyph.
pub open spec fn glyph_index(ch: char) -> Option<int> {
    if '0' <= ch && ch <= '9' {
        Some(ch as int - '0' as int)
    } else if 'A' <= ch && ch <= 'Z' {
        Some(ch as int - 'A' as int + 10)
    } else if 'a' <= ch && ch <= 'z' {
        Some(ch as int - 'a' as int + 10)
    } else {
        None
    }
}

/// Packed pixels of glyph `g`.
pub(crate) fn packed_glyph(g: usize) -> (bits: u64)
    requires
        g < GLYPH_COUNT,
    ensures
        bits == glyph_bits(g as int),
{
    match g {
        0 => 0b01110_10001_10001_10001_10001_10001_01110,  // 0
        1 => 0b00100_01100_00100_00100_00100_00100_01110,  // 1
        2 => 0b01110_10001_00001_01110_10000_10000_11111,  // 2
        3 => 0b01110_10001_00001_00110_00001_10001_01110,  // 3
        4 => 0b00010_00110_01010_10010_11111_00010_00010,  // 4
        5 => 0b11111_10000_10000_01110_00001_10001_01110,  // 5
        6 => 0b01110_10000_10000_11110_10001_10001_01110,  // 6
        7 => 0b11111_00001_00010_00100_01000_01000_01000,  // 7
        8 => 0b01110_10001_10001_01110_10001_10001_01110,  // 8
        9 => 0b01110_10001_10001_01111_00001_00001_01110,  // 9
        10 => 0b01110_10001_10001_11111_10001_10001_10001,  // A
        11 => 0b11110_10001_10001_11110_10001_10001_11110,  // B
        12 => 0b01110_10001_10000_10000_10000_10001_01110,  // C
        13 => 0b11110_10001_10001_10001_10001_10001_11110,  // D
        14 => 0b11111_10000_10000_11100_10000_10000_11111,  // E
        15 => 0b11111_10000_10000_11100_10000_10000_10000,  // F
        16 => 0b01110_10000_10000_10011_10001_10001_01110,  // G
        17 => 0b10001_10001_10001_11111_10001_10001_10001,  // H
        18 => 0b01110_00100_00100_00100_00100_00100_01110,  // I
        19 => 0b00111_00010_00010_00010_00010_10010_01100,  // J
        20 => 0b10001_10010_11000_10000_11000_10010_10001,  // K
        21 => 0b10000_10000_10000_10000_10000_10000_11111,  // L
        22 => 0b10001_11011_10101_10001_10001_10001_10001,  // M
        23 => 0b10001_11001_10101_10011_10001_10001_10001,  // N
        24 => 0b01110_10001_10001_10001_10001_10001_01110,  // O
        25 => 0b11110_10001_10001_11110_10000_10000_10000,  // P
        26 => 0b01110_10001_10001_10001_10101_10010_01101,  // Q
        27 => 0b11110_10001_10001_11110_10010_10001_10001,  // R
        28 => 0b01111_10000_10000_01110_00001_00001_11110,  // S
        29 => 0b11111_00100_00100_00100_00100_00100_00100,  // T
        30 => 0b10001_10001_10001_10001_10001_10001_01110,  // U
        31 => 0b10001_10001_10001_10001_01010_01010_00100,  // V
        32 => 0b10001_10001_10001_10101_10101_11011_10001,  // W
        33 => 0b10001_01010_00100_00100_00100_01010_10001,  // X
        34 => 0b10001_01010_00100_00100_00100_00100_00100,  // Y
        35 => 0b11111_00010_00100_01000_10000_10000_11111,  // Z
        _ => 0,
    }
}

/// The glyph index of `ch`, if the font has a glyph for it.
pub fn glyph_for(ch: char) -> (idx: Option<usize>)
    ensures
        match glyph_index(ch) {
            Some(g) => idx == Some(g as usize) && 0 <= g < GLYPH_COUNT,
            None => idx is None,
        },
{
    if ch >= '0' && ch <= '9' {
        Some((ch as u32 - '0' as u32) as usize)
    } else if ch >= 'A' && ch <= 'Z' {
        Some((ch as u32 - 'A' as u32 + 10) as usize)
    } else if ch >= 'a' && ch <= 'z' {
        Some((ch as u32 - 'a' as u32 + 10) as usize)
    } else {
        None
    }
}

/// Builds the font as nested vectors of lit pixels, indexed by glyph, row
/// and column.
pub fn get_font_data() -> (font: Vec<Vec<Vec<bool>>>)
    ensures
        font.deep_view() == font_model(),
{
    let mut font: Vec<Vec<Vec<bool>>> = Vec::new();
    let mut g: usize = 0;
    while g < GLYPH_COUNT
        invariant
            g <= GLYPH_COUNT,
            font.deep_view() == font_model().take(g as int),
        decreases GLYPH_COUNT - g,
    {
        let bits = packed_glyph(g);
        let mut glyph: Vec<Vec<bool>> = Vec::new();
        let mut r: usize = 0;
        while r < GLYPH_ROWS
            invariant
                g < GLYPH_COUNT,
                r <= GLYPH_ROWS,
                bits == glyph_bits(g as int),
                glyph.deep_view() == font_model()[g as int].take(r as int),
            decreases GLYPH_ROWS - r,
        {
            let mut row: Vec<bool> = Vec::new();
            let mut c: usize = 0;
            while c < GLYPH_COLS
                invariant
                    g < GLYPH_COUNT,
                    r < GLYPH_ROWS,
                    c <= GLYPH_COLS,
                    bits == glyph_bits(g as int),
                    row@ == font_model()[g as int][r as int].take(c as int),
                decreases GLYPH_COLS - c,
            {
                let shift: u64 = (34 - (r * 5 + c)) as u64;
                row.push((bits >> shift) & 1u64 == 1u64);
                assert(row@ =~= font_model()[g as int][r as int].take(c + 1));
                c = c + 1;
            }
            assert(row.deep_view() =~= font_model()[g as int][r as int]);
            let ghost prev = glyph.deep_view();
            glyph.push(row);
            assert(glyph.deep_view() =~= prev.push(font_model()[g as int][r as int]));
            assert(glyph.deep_view() =~= font_model()[g as int].take(r + 1));
            r = r + 1;
        }
        assert(glyph.deep_view() =~= font_model()[g as int]);
        let ghost prev = font.deep_view();
        font.push(glyph);
        assert(font.deep_view() =~= prev.push(font_model()[g as int]));
        assert(font.deep_view() =~= font_model().take(g + 1));
        g = g + 1;
    }
    assert(font.deep_view() =~= font_model());
    font
}

/// Digits render as the first ten glyphs in order, letters as the next
/// twenty-six in alphabetical order in either case, and no other character
/// has a glyph.
pub proof fn lemma_glyph_order(ch: char)
    ensures
        '0' <= ch <= '9' ==> glyph_index(ch) == Some(ch as int - 48),
        'A' <= ch <= 'Z' ==> glyph_index(ch) == Some(ch as int - 55),
        'a' <= ch <= 'z' ==> glyph_index(ch) == Some(ch as int - 87),
        !('0' <= ch <= '9' || 'A' <= ch <= 'Z' || 'a' <= ch <= 'z') ==> glyph_index(ch) is None,
        (glyph_index(ch) matches Some(g) ==> 0 <= g < GLYPH_COUNT),
{
}

/// Different digits and letters have different glyphs, and no two glyphs of
/// the font look the same but those of `0` and `O`, which the font draws
/// alike: no other character is drawn as another one.
pub proof fn lemma_glyphs_distinct(c1: char, c2: char, a: int, b: int)
    ensures
        glyph_index(c1) is Some && glyph_index(c1) == glyph_index(c2) ==> c1 == c2 || (c1 as int - c2 as int
            == 32 || c2 as int - c1 as int == 32),
        0 <= a < GLYPH_COUNT && 0 <= b < GLYPH_COUNT && a != b && !(a == 0 && b == 24) && !(a == 24 && b
            == 0) ==> glyph_bits(a) != glyph_bits(b),
        glyph_bits(0) == glyph_bits(24),
{
}

} // verus!
