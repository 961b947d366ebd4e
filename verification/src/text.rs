//! Rendering of text with the bitmap font.
//!
//! Character `i` of a text drawn at `(x, y)` with `scale` occupies the cell
//! whose left edge is `x + i * 6 * scale`: five columns of glyph pixels and
//! one column of spacing. Every glyph pixel is a `scale` x `scale` square.
//! Digits and letters (either case) draw their glyph, a colon draws two
//! square dots, and every other character, a space among them, draws nothing
//! but still takes its cell.

use vstd::prelude::*;

verus! {

use crate::font::{font_model, get_font_data, glyph_for, glyph_index, glyph_pixel, packed_glyph, GLYPH_COUNT};
use crate::screen::{draw_rect, draw_rect_wide, frame_len, in_rect, pixel_x, pixel_y};
use vstd::arithmetic::div_mod::{lemma_fundamental_div_mod, lemma_fundamental_div_mod_converse};

/// The characters of `text`, in order.
pub fn chars_of(text: &str) -> (chars: Vec<char>)
    ensures
        chars@ == text@,
{
    let mut chars: Vec<char> = Vec::new();
    for ch in it: text.chars()
        invariant
            chars@ == it.seq().take(it.index()),
    {
        chars.push(ch);
    }
    chars
}

/// `v` is a value of `i32`.
pub open spec fn fits_i32(v: int) -> bool {
    i32::MIN <= v && v <= i32::MAX
}

/// The position of character `i` as a 32-bit signed number (the index taken
/// modulo 2^32, as a cast of the index to `i32` gives it).
pub open spec fn char_slot(i: int) -> int {
    (i as i32) as int
}

/// Left edge of the cell of character `i`.
pub open spec fn cell_left(x: int, i: int, scale: int) -> int {
    x + char_slot(i) * (6 * scale)
}

/// Pixel `(px, py)` is lit by glyph `g` drawn with its top-left corner at
/// `(left, top)` and pixels of size `scale`.
pub open spec fn glyph_covers(g: int, left: int, top: int, scale: int, px: int, py: int) -> bool {
    &&& scale > 0
    &&& left <= px < left + 5 * scale
    &&& top <= py < top + 7 * scale
    &&& glyph_pixel(g, (py - top) / scale, (px - left) / scale)
}

/// Pixel `(px, py)` is one of the two dots of a colon drawn in the cell at
/// `(left, top)`: squares at column 1 of rows 1 and 3.
pub open spec fn colon_covers(left: int, top: int, scale: int, px: int, py: int) -> bool {
    &&& left + scale <= px < left + 2 * scale
    &&& (top + scale <= py < top + 2 * scale || top + 3 * scale <= py < top + 4 * scale)
}

/// Pixel `(px, py)` is lit by character `ch` drawn as the `i`-th character of
/// a text at `(x, y)`.
pub open spec fn char_covers(ch: char, i: int, x: int, y: int, scale: int, px: int, py: int) -> bool {
    match glyph_index(ch) {
        Some(g) => glyph_covers(g, cell_left(x, i, scale), y, scale, px, py),
        None => ch == ':' && colon_covers(cell_left(x, i, scale), y, scale, px, py),
    }
}

/// Pixel `(px, py)` is lit by some character of `text` drawn at `(x, y)`.
pub open spec fn text_covers(text: Seq<char>, x: int, y: int, scale: int, px: int, py: int) -> bool {
    exists|i: int| 0 <= i < text.len() && #[trigger] char_covers(text[i], i, x, y, scale, px, py)
}

/// The buffer `old` after drawing `text` at `(x, y)` in `color`: every
/// screen pixel lit by the text takes `color`, every other entry is kept.
pub open spec fn text_painted(old: Seq<u32>, text: Seq<char>, x: int, y: int, scale: int, color: u32) -> Seq<u32> {
    Seq::new(
        old.len(),
        |k: int|
            if 0 <= k < frame_len() && text_covers(text, x, y, scale, pixel_x(k), pixel_y(k)) {
                color
            } else {
                old[k]
            },
    )
}

/// Every screen pixel lit by `text` has its entry in a buffer of `len`
/// entries, so that drawing the text writes inside the buffer.
pub open spec fn text_in_buffer(len: int, text: Seq<char>, x: int, y: int, scale: int) -> bool {
    forall|k: int| len <= k < frame_len() ==> !#[trigger] text_covers(text, x, y, scale, pixel_x(k), pixel_y(k))
}

/// Every screen pixel lit by glyph `g` at `(left, top)` has its entry in a
/// buffer of `len` entries.
pub open spec fn glyph_in_buffer(len: int, g: int, left: int, top: int, scale: int) -> bool {
    forall|k: int| len <= k < frame_len() ==> !#[trigger] glyph_covers(g, left, top, scale, pixel_x(k), pixel_y(k))
}

/// The 32-bit arithmetic that draws the lit pixels of glyph `g` at
/// `(left, top)` does not overflow.
pub open spec fn glyph_arith_fits(g: int, left: int, top: int, scale: int) -> bool {
    forall|r: int, c: int|
        0 <= r < 7 && 0 <= c < 5 && #[trigger] glyph_pixel(g, r, c) ==> {
            &&& fits_i32(c * scale)
            &&& fits_i32(left + c * scale)
            &&& fits_i32(r * scale)
            &&& fits_i32(top + r * scale)
        }
}

/// The 32-bit arithmetic that draws character `i` of a text does not
/// overflow.
pub open spec fn char_arith_fits(ch: char, i: int, x: int, y: int, scale: int) -> bool {
    let offset = char_slot(i) * (6 * scale);
    match glyph_index(ch) {
        Some(g) => {
            &&& fits_i32(offset)
            &&& fits_i32(x + offset)
            &&& glyph_arith_fits(g, x + offset, y, scale)
        },
        None => ch == ':' ==> {
            &&& fits_i32(offset)
            &&& fits_i32(x + offset)
            &&& fits_i32(y + scale)
            &&& fits_i32(3 * scale)
            &&& fits_i32(y + 3 * scale)
        },
    }
}

/// The 32-bit arithmetic that draws `text` does not overflow.
pub open spec fn text_arith_fits(text: Seq<char>, x: int, y: int, scale: int) -> bool {
    &&& fits_i32(6 * scale)
    &&& forall|i: int| 0 <= i < text.len() ==> #[trigger] char_arith_fits(text[i], i, x, y, scale)
}

/// With a positive size, `p` lies in the `c`-th cell of size `s` counted
/// from `o` exactly when `(p - o) / s == c`.
pub proof fn lemma_cell(p: int, o: int, s: int, c: int)
    requires
        s > 0,
    ensures
        (o + c * s <= p && p < o + c * s + s) == ((p - o) / s == c),
{
    lemma_fundamental_div_mod(p - o, s);
    let q = (p - o) / s;
    let r = (p - o) % s;
    if o + c * s <= p && p < o + c * s + s {
        lemma_fundamental_div_mod_converse(p - o, s, c, p - o - c * s);
    }
    if q == c {
        assert(p - o == s * c + r);
        assert(s * c == c * s) by (nonlinear_arith);
    }
}

/// With a positive size, `d` lies in `[0, n * s)` exactly when `d / s` lies
/// in `[0, n)`.
pub proof fn lemma_cell_range(d: int, s: int, n: int)
    requires
        s > 0,
        n >= 0,
    ensures
        (0 <= d && d < n * s) == (0 <= d / s && d / s < n),
{
    lemma_fundamental_div_mod(d, s);
    let q = d / s;
    let r = d % s;
    assert(d == s * q + r);
    if 0 <= d && d < n * s {
        assert(q >= 0) by (nonlinear_arith)
            requires d == s * q + r, 0 <= r < s, 0 <= d, s > 0;
        assert(q < n) by (nonlinear_arith)
            requires d == s * q + r, 0 <= r < s, d < n * s, s > 0;
    }
    if 0 <= q && q < n {
        assert(0 <= d && d < n * s) by (nonlinear_arith)
            requires d == s * q + r, 0 <= r < s, 0 <= q < n, s > 0;
    }
}

/// The pixels of glyph `g` at `(left, top)` that come before glyph pixel
/// `(r0, c0)` in row-major order.
pub open spec fn glyph_covers_before(
    g: int,
    left: int,
    top: int,
    scale: int,
    r0: int,
    c0: int,
    px: int,
    py: int,
) -> bool {
    &&& glyph_covers(g, left, top, scale, px, py)
    &&& ((py - top) / scale < r0 || ((py - top) / scale == r0 && (px - left) / scale < c0))
}

/// `old` with the pixels of `glyph_covers_before` painted in `color`.
pub open spec fn glyph_progress(
    old: Seq<u32>,
    g: int,
    left: int,
    top: int,
    scale: int,
    r0: int,
    c0: int,
    color: u32,
) -> Seq<u32> {
    Seq::new(
        old.len(),
        |k: int|
            if 0 <= k < frame_len() && glyph_covers_before(g, left, top, scale, r0, c0, pixel_x(k), pixel_y(k)) {
                color
            } else {
                old[k]
            },
    )
}

/// Draws glyph `g` of `font` with its top-left corner at `(left, top)`.
fn draw_glyph(
    buffer: &mut Vec<u32>,
    font: &Vec<Vec<Vec<bool>>>,
    g: usize,
    left: i32,
    top: i32,
    scale: i32,
    color: u32,
)
    requires
        glyph_in_buffer(old(buffer)@.len() as int, g as int, left as int, top as int, scale as int),
        font.deep_view() == font_model(),
        g < GLYPH_COUNT,
        glyph_arith_fits(g as int, left as int, top as int, scale as int),
    ensures
        final(buffer)@ == Seq::new(
            old(buffer)@.len(),
            |k: int|
                if 0 <= k < frame_len() && glyph_covers(
                    g as int,
                    left as int,
                    top as int,
                    scale as int,
                    pixel_x(k),
                    pixel_y(k),
                ) {
                    color
                } else {
                    old(buffer)@[k]
                },
        ),
{
    let ghost orig = buffer@;
    let ghost gi = g as int;
    let ghost (l, t, s) = (left as int, top as int, scale as int);
    assert(buffer@ =~= glyph_progress(orig, gi, l, t, s, 0, 0, color)) by {
        assert forall|k: int| 0 <= k < frame_len() implies !glyph_covers_before(
            gi, l, t, s, 0, 0, pixel_x(k), pixel_y(k),
        ) by {
            if glyph_covers(gi, l, t, s, pixel_x(k), pixel_y(k)) {
                lemma_cell_range(pixel_y(k) - t, s, 7);
            }
        }
    }
    let mut r: usize = 0;
    while r < 7
        invariant
            r <= 7,
            glyph_in_buffer(orig.len() as int, gi, l, t, s),
            font.deep_view() == font_model(),
            g < GLYPH_COUNT,
            gi == g,
            l == left,
            t == top,
            s == scale,
            glyph_arith_fits(gi, l, t, s),
            buffer@ == glyph_progress(orig, gi, l, t, s, r as int, 0, color),
        decreases 7 - r,
    {
        let mut c: usize = 0;
        while c < 5
            invariant
                r < 7,
                c <= 5,
                glyph_in_buffer(orig.len() as int, gi, l, t, s),
                font.deep_view() == font_model(),
                g < GLYPH_COUNT,
                gi == g,
                l == left,
                t == top,
                s == scale,
                glyph_arith_fits(gi, l, t, s),
                buffer@ == glyph_progress(orig, gi, l, t, s, r as int, c as int, color),
            decreases 5 - c,
        {
            let ghost cur = buffer@;
            proof {
                let ri = r as int;
                let ci = c as int;
                assert(font.deep_view().len() == font@.len());
                assert(font.deep_view()[gi] == font@[gi].deep_view());
                assert(font@[gi].deep_view().len() == font@[gi]@.len());
                assert(font@[gi].deep_view()[ri] == font@[gi]@[ri].deep_view());
                assert(font@[gi]@[ri].deep_view().len() == font@[gi]@[ri]@.len());
                assert(font@[gi]@[ri].deep_view()[ci] == font@[gi]@[ri]@[ci]);
            }
            let lit = font[g][r][c];
            assert(lit == glyph_pixel(gi, r as int, c as int));
            if lit {
                let px = left + (c as i32) * scale;
                let py = top + (r as i32) * scale;
                proof {
                    let ri = r as int;
                    let ci = c as int;
                    assert forall|k: int| cur.len() <= k < frame_len() implies !#[trigger] in_rect(
                        k,
                        px as int,
                        px + scale,
                        py as int,
                        py + scale,
                    ) by {
                        if s > 0 {
                            lemma_cell(pixel_x(k), l, s, ci);
                            lemma_cell(pixel_y(k), t, s, ri);
                            lemma_cell_range(pixel_x(k) - l, s, 5);
                            lemma_cell_range(pixel_y(k) - t, s, 7);
                            assert(!glyph_covers(gi, l, t, s, pixel_x(k), pixel_y(k)));
                        }
                    }
                }
                draw_rect(buffer, px, py, scale, scale, color);
            }
            proof {
                let ri = r as int;
                let ci = c as int;
                assert forall|k: int| 0 <= k < cur.len() implies #[trigger] buffer@[k]
                    == glyph_progress(orig, gi, l, t, s, ri, ci + 1, color)[k] by {
                    if 0 <= k < frame_len() && s > 0 {
                        let px = pixel_x(k);
                        let py = pixel_y(k);
                        lemma_cell(px, l, s, ci);
                        lemma_cell(py, t, s, ri);
                        lemma_cell_range(px - l, s, 5);
                        lemma_cell_range(py - t, s, 7);
                    }
                }
                assert(buffer@ =~= glyph_progress(orig, gi, l, t, s, ri, ci + 1, color));
            }
            c = c + 1;
        }
        proof {
            assert forall|k: int| 0 <= k < orig.len() implies #[trigger] glyph_progress(
                orig, gi, l, t, s, r as int, 5, color,
            )[k] == glyph_progress(orig, gi, l, t, s, r + 1, 0, color)[k] by {
                if 0 <= k < frame_len() && s > 0 {
                    lemma_cell_range(pixel_x(k) - l, s, 5);
                }
            }
            assert(glyph_progress(orig, gi, l, t, s, r as int, 5, color) =~= glyph_progress(
                orig, gi, l, t, s, r + 1, 0, color,
            ));
        }
        r = r + 1;
    }
    proof {
        assert forall|k: int| 0 <= k < orig.len() implies #[trigger] buffer@[k] == (if 0 <= k
            < frame_len() && glyph_covers(gi, l, t, s, pixel_x(k), pixel_y(k)) {
            color
        } else {
            orig[k]
        }) by {
            if 0 <= k < frame_len() && s > 0 {
                lemma_cell_range(pixel_y(k) - t, s, 7);
            }
        }
    }
    assert(buffer@ =~= Seq::new(
        orig.len(),
        |k: int|
            if 0 <= k < frame_len() && glyph_covers(gi, l, t, s, pixel_x(k), pixel_y(k)) {
                color
            } else {
                orig[k]
            },
    ));
}

/// Drawing one more character of a text lights the pixels of the shorter
/// text and those of the new character.
pub proof fn lemma_covers_extend(text: Seq<char>, n: int, x: int, y: int, scale: int, px: int, py: int)
    requires
        0 <= n < text.len(),
    ensures
        text_covers(text.take(n + 1), x, y, scale, px, py) == (text_covers(text.take(n), x, y, scale, px, py)
            || char_covers(text[n], n, x, y, scale, px, py)),
{
    let t1 = text.take(n + 1);
    let t0 = text.take(n);
    if text_covers(t1, x, y, scale, px, py) {
        let j = choose|j: int| 0 <= j < t1.len() && #[trigger] char_covers(t1[j], j, x, y, scale, px, py);
        if j < n {
            assert(t0[j] == t1[j]);
        }
    }
    if text_covers(t0, x, y, scale, px, py) {
        let j = choose|j: int| 0 <= j < t0.len() && #[trigger] char_covers(t0[j], j, x, y, scale, px, py);
        assert(t1[j] == t0[j]);
    }
    if char_covers(text[n], n, x, y, scale, px, py) {
        assert(t1[n] == text[n]);
    }
}

/// Draws `text` with its top-left corner at `(x, y)` in `color`, each font
/// pixel a `scale` x `scale` square; see the module documentation for the
/// layout. Pixels off the screen are not drawn.
pub fn draw_text(buffer: &mut Vec<u32>, text: &str, x: i32, y: i32, scale: i32, color: u32)
    requires
        text_in_buffer(old(buffer)@.len() as int, text@, x as int, y as int, scale as int),
        text_arith_fits(text@, x as int, y as int, scale as int),
    ensures
        final(buffer)@ == text_painted(old(buffer)@, text@, x as int, y as int, scale as int, color),
{
    let font = get_font_data();
    let chars = chars_of(text);
    let pixel_size = scale;
    let spacing = 6 * scale;
    let ghost orig = buffer@;
    let ghost xi = x as int;
    let ghost yi = y as int;
    let ghost si = scale as int;
    assert(buffer@ =~= text_painted(orig, chars@.take(0), xi, yi, si, color));
    let mut i: usize = 0;
    while i < chars.len()
        invariant
            i <= chars.len(),
            chars@ == text@,
            font.deep_view() == font_model(),
            spacing == 6 * scale,
            pixel_size == scale,
            xi == x,
            yi == y,
            si == scale,
            text_arith_fits(chars@, xi, yi, si),
            text_in_buffer(orig.len() as int, chars@, xi, yi, si),
            buffer@ == text_painted(orig, chars@.take(i as int), xi, yi, si, color),
        decreases chars.len() - i,
    {
        let ch = chars[i];
        let ghost before = buffer@;
        let ghost ii = i as int;
        assert(char_arith_fits(chars@[ii], ii, xi, yi, si));
        assert forall|k: int| orig.len() <= k < frame_len() implies !#[trigger] char_covers(
            chars@[ii],
            ii,
            xi,
            yi,
            si,
            pixel_x(k),
            pixel_y(k),
        ) by {
            if char_covers(chars@[ii], ii, xi, yi, si, pixel_x(k), pixel_y(k)) {
                assert(text_covers(chars@, xi, yi, si, pixel_x(k), pixel_y(k)));
            }
        }
        match glyph_for(ch) {
            Some(g) => {
                let cx = x + (i as i32) * spacing;
                proof {
                    assert(cx == cell_left(xi, ii, si));
                    assert forall|k: int| buffer@.len() <= k < frame_len() implies !#[trigger] glyph_covers(
                        g as int,
                        cx as int,
                        yi,
                        si,
                        pixel_x(k),
                        pixel_y(k),
                    ) by {
                        assert(!char_covers(chars@[ii], ii, xi, yi, si, pixel_x(k), pixel_y(k)));
                    }
                }
                draw_glyph(buffer, &font, g, cx, y, pixel_size, color);
            },
            None => {
                if ch == ':' {
                    let cx = x + (i as i32) * spacing;
                    proof {
                        assert(cx == cell_left(xi, ii, si));
                        assert forall|k: int| buffer@.len() <= k < frame_len() implies !#[trigger] in_rect(
                            k,
                            cx + si,
                            cx + si + si,
                            yi + si,
                            yi + si + si,
                        ) by {
                            assert(!char_covers(chars@[ii], ii, xi, yi, si, pixel_x(k), pixel_y(k)));
                        }
                    }
                    draw_rect_wide(
                        buffer,
                        cx as i64 + pixel_size as i64,
                        (y + pixel_size) as i64,
                        pixel_size as i64,
                        pixel_size as i64,
                        color,
                    );
                    proof {
                        assert forall|k: int| buffer@.len() <= k < frame_len() implies !#[trigger] in_rect(
                            k,
                            cx + si,
                            cx + si + si,
                            yi + 3 * si,
                            yi + 3 * si + si,
                        ) by {
                            assert(!char_covers(chars@[ii], ii, xi, yi, si, pixel_x(k), pixel_y(k)));
                        }
                    }
                    draw_rect_wide(
                        buffer,
                        cx as i64 + pixel_size as i64,
                        (y + 3 * pixel_size) as i64,
                        pixel_size as i64,
                        pixel_size as i64,
                        color,
                    );
                }
            },
        }
        proof {
            assert forall|k: int| 0 <= k < orig.len() implies #[trigger] buffer@[k] == text_painted(
                orig,
                chars@.take(ii + 1),
                xi,
                yi,
                si,
                color,
            )[k] by {
                if 0 <= k < frame_len() {
                    lemma_covers_extend(chars@, ii, xi, yi, si, pixel_x(k), pixel_y(k));
                }
            }
            assert(buffer@ =~= text_painted(orig, chars@.take(ii + 1), xi, yi, si, color));
        }
        i = i + 1;
    }
    assert(chars@.take(chars@.len() as int) =~= chars@);
}

/// The ASCII upper-case form of `c`.
pub open spec fn ascii_upper(c: char) -> char {
    if 'a' <= c && c <= 'z' {
        ((c as int) - 32) as char
    } else {
        c
    }
}

/// Text is drawn without regard to case: a text and its ASCII upper-case
/// form light the same pixels.
pub proof fn lemma_text_case_insensitive(text: Seq<char>, x: int, y: int, scale: int, px: int, py: int)
    ensures
        text_covers(text, x, y, scale, px, py) == text_covers(
            text.map_values(|c: char| ascii_upper(c)),
            x,
            y,
            scale,
            px,
            py,
        ),
{
    let up = text.map_values(|c: char| ascii_upper(c));
    assert forall|i: int| 0 <= i < text.len() implies #[trigger] char_covers(text[i], i, x, y, scale, px, py)
        == char_covers(up[i], i, x, y, scale, px, py) by {
        let c = text[i];
        assert(up[i] == ascii_upper(c));
        if 'a' <= c && c <= 'z' {
            assert(ascii_upper(c) as int == c as int - 32);
        }
    }
    if text_covers(text, x, y, scale, px, py) {
        let i = choose|i: int| 0 <= i < text.len() && #[trigger] char_covers(text[i], i, x, y, scale, px, py);
        assert(char_covers(up[i], i, x, y, scale, px, py));
    }
    if text_covers(up, x, y, scale, px, py) {
        let i = choose|i: int| 0 <= i < up.len() && #[trigger] char_covers(up[i], i, x, y, scale, px, py);
        assert(char_covers(text[i], i, x, y, scale, px, py));
    }
}

/// Every character stays in its cell: a lit pixel lies in the five glyph
/// columns of the cell of some character and in the seven glyph rows below
/// `y`; with a size that is not positive nothing is lit.
pub proof fn lemma_text_stays_in_cells(text: Seq<char>, x: int, y: int, scale: int, px: int, py: int)
    requires
        text_covers(text, x, y, scale, px, py),
    ensures
        scale > 0,
        y <= py < y + 7 * scale,
        exists|i: int|
            0 <= i < text.len() && #[trigger] cell_left(x, i, scale) <= px < cell_left(x, i, scale) + 5
                * scale,
{
    let i = choose|i: int| 0 <= i < text.len() && #[trigger] char_covers(text[i], i, x, y, scale, px, py);
    assert(cell_left(x, i, scale) <= px < cell_left(x, i, scale) + 5 * scale);
}

/// Whether `v` is a value of `i32`.
fn fits_i32_exec(v: i64) -> (ok: bool)
    ensures
        ok == fits_i32(v as int),
{
    v >= i32::MIN as i64 && v <= i32::MAX as i64
}

/// Whether the arithmetic that draws glyph `g` at `(left, top)` stays within
/// `i32`.
fn glyph_fits(g: usize, left: i32, top: i32, scale: i32) -> (ok: bool)
    requires
        g < GLYPH_COUNT,
    ensures
        ok == glyph_arith_fits(g as int, left as int, top as int, scale as int),
{
    let bits = packed_glyph(g);
    let mut r: usize = 0;
    while r < 7
        invariant
            r <= 7,
            g < GLYPH_COUNT,
            bits == crate::font::glyph_bits(g as int),
            forall|rr: int, cc: int|
                0 <= rr < r && 0 <= cc < 5 && #[trigger] glyph_pixel(g as int, rr, cc) ==> {
                    &&& fits_i32(cc * scale)
                    &&& fits_i32(left + cc * scale)
                    &&& fits_i32(rr * scale)
                    &&& fits_i32(top + rr * scale)
                },
        decreases 7 - r,
    {
        let mut c: usize = 0;
        while c < 5
            invariant
                r < 7,
                c <= 5,
                g < GLYPH_COUNT,
                bits == crate::font::glyph_bits(g as int),
                forall|rr: int, cc: int|
                    (0 <= rr < r && 0 <= cc < 5 || rr == r && 0 <= cc < c) && #[trigger] glyph_pixel(
                        g as int,
                        rr,
                        cc,
                    ) ==> {
                        &&& fits_i32(cc * scale)
                        &&& fits_i32(left + cc * scale)
                        &&& fits_i32(rr * scale)
                        &&& fits_i32(top + rr * scale)
                    },
            decreases 5 - c,
        {
            let shift: u64 = (34 - (r * 5 + c)) as u64;
            if (bits >> shift) & 1u64 == 1u64 {
                proof {
                    let (ci, ri, si) = (c as int, r as int, scale as int);
                    assert(-0x10_0000_0000 <= ci * si <= 0x10_0000_0000) by (nonlinear_arith)
                        requires
                            0 <= ci <= 5,
                            -0x8000_0000 <= si <= 0x8000_0000,
                    ;
                    assert(-0x10_0000_0000 <= ri * si <= 0x10_0000_0000) by (nonlinear_arith)
                        requires
                            0 <= ri <= 7,
                            -0x8000_0000 <= si <= 0x8000_0000,
                    ;
                }
                let dx = c as i64 * scale as i64;
                let dy = r as i64 * scale as i64;
                let ok = fits_i32_exec(dx) && fits_i32_exec(left as i64 + dx) && fits_i32_exec(dy)
                    && fits_i32_exec(top as i64 + dy);
                if !ok {
                    assert(glyph_pixel(g as int, r as int, c as int));
                    return false;
                }
            }
            c = c + 1;
        }
        r = r + 1;
    }
    true
}

/// Whether drawing `text` at `(x, y)` with `scale` keeps its 32-bit
/// arithmetic from overflowing, which `draw_text` requires.
pub fn text_fits(text: &str, x: i32, y: i32, scale: i32) -> (ok: bool)
    ensures
        ok == text_arith_fits(text@, x as int, y as int, scale as int),
{
    let chars = chars_of(text);
    if !fits_i32_exec(6 * scale as i64) {
        return false;
    }
    let spacing = 6 * scale;
    let mut i: usize = 0;
    while i < chars.len()
        invariant
            i <= chars.len(),
            chars@ == text@,
            fits_i32(6 * scale),
            spacing == 6 * scale,
            forall|j: int| 0 <= j < i ==> #[trigger] char_arith_fits(chars@[j], j, x as int, y as int, scale as int),
        decreases chars.len() - i,
    {
        let ch = chars[i];
        let slot = i as i32;
        proof {
            let (a, b) = (slot as int, spacing as int);
            assert(-0x4000_0000_0000_0000 <= a * b <= 0x4000_0000_0000_0000) by (nonlinear_arith)
                requires
                    -0x8000_0000 <= a <= 0x8000_0000,
                    -0x8000_0000 <= b <= 0x8000_0000,
            ;
        }
        let offset = slot as i64 * spacing as i64;
        let ghost ii = i as int;
        assert(offset == char_slot(ii) * (6 * scale));
        let drawn = glyph_for(ch);
        let ok = match drawn {
            Some(g) => {
                if fits_i32_exec(offset) && fits_i32_exec(x as i64 + offset) {
                    glyph_fits(g, (x as i64 + offset) as i32, y, scale)
                } else {
                    false
                }
            },
            None => {
                if ch == ':' {
                    fits_i32_exec(offset) && fits_i32_exec(x as i64 + offset) && fits_i32_exec(
                        y as i64 + scale as i64,
                    ) && fits_i32_exec(3 * scale as i64) && fits_i32_exec(y as i64 + 3 * scale as i64)
                } else {
                    true
                }
            },
        };
        assert(ok == char_arith_fits(chars@[ii], ii, x as int, y as int, scale as int));
        if !ok {
            return false;
        }
        i = i + 1;
    }
    true
}

/// A digit in a text lights exactly the pixels of its own glyph: digit `d`
/// draws glyph number `d` of the font in its cell.
pub proof fn lemma_digit_draws_its_glyph(ch: char, i: int, x: int, y: int, scale: int, px: int, py: int)
    requires
        '0' <= ch <= '9',
    ensures
        char_covers(ch, i, x, y, scale, px, py) == glyph_covers(
            ch as int - 48,
            cell_left(x, i, scale),
            y,
            scale,
            px,
            py,
        ),
{
    crate::font::lemma_glyph_order(ch);
}

/// Glyph pixels are squares: with a positive size, the pixel at offset
/// `(dx, dy)` inside the square of row `r` and column `c` of a glyph is lit
/// exactly when that glyph pixel is set.
pub proof fn lemma_glyph_pixel_square(
    g: int,
    left: int,
    top: int,
    scale: int,
    r: int,
    c: int,
    dx: int,
    dy: int,
)
    requires
        scale > 0,
        0 <= r < 7,
        0 <= c < 5,
        0 <= dx < scale,
        0 <= dy < scale,
    ensures
        glyph_covers(g, left, top, scale, left + c * scale + dx, top + r * scale + dy) == glyph_pixel(g, r, c),
{
    lemma_cell(left + c * scale + dx, left, scale, c);
    lemma_cell(top + r * scale + dy, top, scale, r);
    lemma_cell_range(c * scale + dx, scale, 5);
    lemma_cell_range(r * scale + dy, scale, 7);
}

/// Consecutive characters are six glyph pixels apart.
pub proof fn lemma_cells_spaced(x: int, i: int, scale: int)
    requires
        0 <= i < i32::MAX,
    ensures
        cell_left(x, i + 1, scale) == cell_left(x, i, scale) + 6 * scale,
        cell_left(x, 0, scale) == x,
{
    assert((i + 1) * (6 * scale) == i * (6 * scale) + 6 * scale) by (nonlinear_arith);
    assert(char_slot(0) == 0);
    assert(char_slot(i + 1) == i + 1);
    assert(char_slot(i) == i);
}

} // verus!
