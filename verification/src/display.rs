//! The size of the display, read from the output of the X tools `xrandr`
//! and `xdpyinfo`, and the position that centers the game window on it.
//!
//! The text is taken apart as Rust's `str` methods do: `split` on a
//! character gives the pieces between its occurrences (one piece, the whole
//! text, when it does not occur), `split_whitespace` gives the maximal runs
//! of characters that are not Unicode white space, and a `u32` is read as
//! `u32::from_str` reads it: an optional `+`, then one or more ASCII digits,
//! with a value that fits. Lines are the pieces between newlines; a carriage
//! return before a newline is white space, so it changes no word and no
//! search below.

use vstd::prelude::*;

verus! {

use crate::screen::{SCREEN_HEIGHT, SCREEN_WIDTH};
use crate::text::chars_of;

/// Display width assumed when neither tool reports one.
pub const DEFAULT_SCREEN_WIDTH: u32 = 1920;

/// Display height assumed when neither tool reports one.
pub const DEFAULT_SCREEN_HEIGHT: u32 = 1080;

/// The pieces of `s` between the occurrences of `sep`, in order.
pub open spec fn split_on(s: Seq<char>, sep: char) -> Seq<Seq<char>>
    decreases s.len(),
{
    if s.len() == 0 {
        seq![Seq::<char>::empty()]
    } else {
        let init = split_on(s.drop_last(), sep);
        if s.last() == sep {
            init.push(Seq::<char>::empty())
        } else {
            init.update(init.len() - 1, init.last().push(s.last()))
        }
    }
}

/// Splitting gives at least one piece.
pub proof fn lemma_split_on_len(s: Seq<char>, sep: char)
    ensures
        split_on(s, sep).len() >= 1,
    decreases s.len(),
{
    if s.len() > 0 {
        lemma_split_on_len(s.drop_last(), sep);
    }
}

/// Splits `s` at every occurrence of `sep`.
pub fn split_chars(s: &Vec<char>, sep: char) -> (pieces: Vec<Vec<char>>)
    ensures
        pieces.deep_view() == split_on(s@, sep),
{
    let mut pieces: Vec<Vec<char>> = Vec::new();
    pieces.push(Vec::new());
    assert(s@.take(0) =~= Seq::<char>::empty());
    assert(pieces.deep_view() =~~= split_on(s@.take(0), sep));
    let mut i: usize = 0;
    while i < s.len()
        invariant
            i <= s.len(),
            pieces.len() >= 1,
            pieces.deep_view() == split_on(s@.take(i as int), sep),
        decreases s.len() - i,
    {
        let c = s[i];
        let ghost prev = pieces.deep_view();
        assert(s@.take(i + 1).drop_last() =~= s@.take(i as int));
        assert(s@.take(i + 1).last() == c);
        if c == sep {
            pieces.push(Vec::new());
            assert(pieces.deep_view() =~~= prev.push(Seq::<char>::empty()));
        } else {
            let last = pieces.len() - 1;
            let mut piece = pieces[last].clone();
            assert(piece@ == prev[last as int]);
            piece.push(c);
            pieces.set(last, piece);
            assert(pieces.deep_view() =~~= prev.update(last as int, prev.last().push(c)));
        }
        i = i + 1;
    }
    assert(s@.take(s.len() as int) =~= s@);
    pieces
}

/// `c` is Unicode white space, as `char::is_whitespace` tells it.
pub open spec fn is_white(c: char) -> bool {
    ||| c == '\t'
    ||| c == '\n'
    ||| c == '\u{0B}'
    ||| c == '\u{0C}'
    ||| c == '\r'
    ||| c == ' '
    ||| c == '\u{85}'
    ||| c == '\u{A0}'
    ||| c == '\u{1680}'
    ||| ('\u{2000}' <= c && c <= '\u{200A}')
    ||| c == '\u{2028}'
    ||| c == '\u{2029}'
    ||| c == '\u{202F}'
    ||| c == '\u{205F}'
    ||| c == '\u{3000}'
}

/// Whether `c` is Unicode white space.
pub fn is_white_char(c: char) -> (b: bool)
    ensures
        b == is_white(c),
{
    c == '\t' || c == '\n' || c == '\u{0B}' || c == '\u{0C}' || c == '\r' || c == ' ' || c == '\u{85}'
        || c == '\u{A0}' || c == '\u{1680}' || ('\u{2000}' <= c && c <= '\u{200A}') || c == '\u{2028}'
        || c == '\u{2029}' || c == '\u{202F}' || c == '\u{205F}' || c == '\u{3000}'
}

/// The words of `s`: its maximal runs of characters that are not white
/// space, in order.
pub open spec fn words(s: Seq<char>) -> Seq<Seq<char>>
    decreases s.len(),
{
    if s.len() == 0 {
        Seq::empty()
    } else {
        let w = words(s.drop_last());
        let c = s.last();
        if is_white(c) {
            w
        } else if s.len() >= 2 && !is_white(s[s.len() - 2]) {
            w.update(w.len() - 1, w.last().push(c))
        } else {
            w.push(seq![c])
        }
    }
}

/// Splits `s` into its words.
pub fn split_words(s: &Vec<char>) -> (ws: Vec<Vec<char>>)
    ensures
        ws.deep_view() == words(s@),
{
    let mut ws: Vec<Vec<char>> = Vec::new();
    let mut in_word = false;
    assert(s@.take(0) =~= Seq::<char>::empty());
    assert(ws.deep_view() =~~= words(s@.take(0)));
    let mut i: usize = 0;
    while i < s.len()
        invariant
            i <= s.len(),
            in_word == (i > 0 && !is_white(s@[i - 1])),
            in_word ==> ws.len() >= 1,
            ws.deep_view() == words(s@.take(i as int)),
        decreases s.len() - i,
    {
        let c = s[i];
        let ghost prev = ws.deep_view();
        let ghost t = s@.take(i + 1);
        assert(t.drop_last() =~= s@.take(i as int));
        assert(t.last() == c);
        assert(i >= 1 ==> t[t.len() - 2] == s@[i - 1]);
        if is_white_char(c) {
            in_word = false;
        } else if in_word {
            let last = ws.len() - 1;
            let mut w = ws[last].clone();
            assert(w@ == prev[last as int]);
            w.push(c);
            ws.set(last, w);
            assert(ws.deep_view() =~~= prev.update(last as int, prev.last().push(c)));
        } else {
            let mut w: Vec<char> = Vec::new();
            w.push(c);
            ws.push(w);
            assert(ws.deep_view() =~~= prev.push(seq![c]));
            in_word = true;
        }
        i = i + 1;
    }
    assert(s@.take(s.len() as int) =~= s@);
    ws
}

/// `needle` occurs in `hay` as a contiguous run.
pub open spec fn contains_run(hay: Seq<char>, needle: Seq<char>) -> bool {
    exists|i: int| 0 <= i && i + needle.len() <= hay.len() && #[trigger] hay.subrange(i, i + needle.len()) == needle
}

/// Whether `needle` occurs in `hay` as a contiguous run.
pub fn contains_chars(hay: &Vec<char>, needle: &Vec<char>) -> (found: bool)
    ensures
        found == contains_run(hay@, needle@),
{
    if needle.len() > hay.len() {
        return false;
    }
    let n = needle.len();
    let mut i: usize = 0;
    while i <= hay.len() - n
        invariant
            n == needle.len(),
            n <= hay.len(),
            i <= hay.len() - n + 1,
            forall|j: int| 0 <= j < i ==> #[trigger] hay@.subrange(j, j + n) != needle@,
        decreases hay.len() - i,
    {
        let mut k: usize = 0;
        let mut same = true;
        while k < n
            invariant
                n == needle.len(),
                i + n <= hay.len(),
                k <= n,
                same == (forall|m: int| 0 <= m < k ==> hay@[i + m] == needle@[m]),
            decreases n - k,
        {
            if hay[i + k] != needle[k] {
                same = false;
            }
            k = k + 1;
        }
        if same {
            assert(hay@.subrange(i as int, i + n) =~= needle@);
            return true;
        }
        assert(hay@.subrange(i as int, i + n)[0] == hay@[i as int] || n == 0);
        assert(hay@.subrange(i as int, i + n) != needle@) by {
            let m = choose|m: int| 0 <= m < n && hay@[i + m] != needle@[m];
            assert(hay@.subrange(i as int, i + n)[m] == hay@[i + m]);
        }
        i = i + 1;
    }
    false
}

/// `c` occurs in `s`.
pub fn contains_char(s: &Vec<char>, c: char) -> (found: bool)
    ensures
        found == s@.contains(c),
{
    let mut i: usize = 0;
    while i < s.len()
        invariant
            i <= s.len(),
            forall|j: int| 0 <= j < i ==> s@[j] != c,
        decreases s.len() - i,
    {
        if s[i] == c {
            return true;
        }
        i = i + 1;
    }
    false
}

/// `c` is an ASCII digit.
pub open spec fn is_digit(c: char) -> bool {
    '0' <= c && c <= '9'
}

/// The decimal value of the digits `d`.
pub open spec fn digits_value(d: Seq<char>) -> int
    decreases d.len(),
{
    if d.len() == 0 {
        0
    } else {
        digits_value(d.drop_last()) * 10 + (d.last() as int - '0' as int)
    }
}

/// The digits of a number: the text without a leading `+`.
pub open spec fn unsigned_digits(t: Seq<char>) -> Seq<char> {
    if t.len() > 0 && t[0] == '+' {
        t.drop_first()
    } else {
        t
    }
}

/// The `u32` that `t` denotes, if it is one: an optional `+`, then one or
/// more ASCII digits, of a value that fits in 32 bits.
pub open spec fn parse_u32(t: Seq<char>) -> Option<u32> {
    let d = unsigned_digits(t);
    if d.len() > 0 && (forall|i: int| 0 <= i < d.len() ==> #[trigger] is_digit(d[i])) && digits_value(d)
        <= u32::MAX {
        Some(digits_value(d) as u32)
    } else {
        None
    }
}

/// A run of digits is worth at least as much as any of its prefixes.
pub proof fn lemma_digits_value_grows(d: Seq<char>, k: int)
    requires
        0 <= k <= d.len(),
        forall|i: int| 0 <= i < d.len() ==> #[trigger] is_digit(d[i]),
    ensures
        0 <= digits_value(d.take(k)) <= digits_value(d),
    decreases d.len(),
{
    if d.len() > 0 {
        let p = d.drop_last();
        assert forall|i: int| 0 <= i < p.len() implies #[trigger] is_digit(p[i]) by {
            assert(p[i] == d[i]);
        }
        if k == d.len() {
            assert(d.take(k) =~= d);
            lemma_digits_value_grows(p, p.len() as int);
            assert(p.take(p.len() as int) =~= p);
            assert(is_digit(d[d.len() - 1]));
        } else {
            lemma_digits_value_grows(p, k);
            lemma_digits_value_grows(p, p.len() as int);
            assert(p.take(k) =~= d.take(k));
            assert(p.take(p.len() as int) =~= p);
            assert(is_digit(d[d.len() - 1]));
        }
    } else {
        assert(d.take(k) =~= d);
    }
}

/// Reads `t` as `u32::from_str` does.
pub fn parse_u32_chars(t: &Vec<char>) -> (r: Option<u32>)
    ensures
        r == parse_u32(t@),
{
    let start: usize = if t.len() > 0 && t[0] == '+' {
        1
    } else {
        0
    };
    let ghost d = unsigned_digits(t@);
    assert(d =~= t@.subrange(start as int, t@.len() as int));
    if start >= t.len() {
        return None;
    }
    let mut value: u64 = 0;
    let mut i = start;
    assert(d.take(0) =~= Seq::<char>::empty());
    while i < t.len()
        invariant
            start <= i <= t.len(),
            d == t@.subrange(start as int, t@.len() as int),
            d == unsigned_digits(t@),
            forall|j: int| 0 <= j < i - start ==> #[trigger] is_digit(d[j]),
            value == digits_value(d.take(i - start)),
            value <= u32::MAX,
        decreases t.len() - i,
    {
        let c = t[i];
        assert(d[i - start] == c);
        if !(c >= '0' && c <= '9') {
            assert(!is_digit(d[i - start]));
            return None;
        }
        let v = value * 10 + (c as u32 - '0' as u32) as u64;
        assert(d.take(i + 1 - start).drop_last() =~= d.take(i - start));
        assert(v == digits_value(d.take(i + 1 - start)));
        if v > u32::MAX as u64 {
            proof {
                if forall|j: int| 0 <= j < d.len() ==> #[trigger] is_digit(d[j]) {
                    lemma_digits_value_grows(d, i + 1 - start);
                }
            }
            return None;
        }
        value = v;
        i = i + 1;
    }
    assert(d.take(d.len() as int) =~= d);
    Some(value as u32)
}

/// A size written `<width>x<height>`: exactly two pieces around one `x`,
/// each a `u32`.
pub open spec fn dims_of(r: Seq<char>) -> Option<(u32, u32)> {
    let p = split_on(r, 'x');
    if p.len() == 2 {
        match (parse_u32(p[0]), parse_u32(p[1])) {
            (Some(w), Some(h)) => Some((w, h)),
            _ => None,
        }
    } else {
        None
    }
}

/// The size in an `xrandr` geometry word such as `4096x2560+0+0`: a word
/// with an `x` and a `+`, read up to its first `+`.
pub open spec fn xrandr_word_size(w: Seq<char>) -> Option<(u32, u32)> {
    if w.contains('x') && w.contains('+') {
        dims_of(split_on(w, '+')[0])
    } else {
        None
    }
}

/// The result of `f` on the first item for which it has one.
pub open spec fn first_found(items: Seq<Seq<char>>, f: spec_fn(Seq<char>) -> Option<(u32, u32)>) -> Option<(u32, u32)>
    decreases items.len(),
{
    if items.len() == 0 {
        None
    } else {
        match f(items[0]) {
            Some(d) => Some(d),
            None => first_found(items.drop_first(), f),
        }
    }
}

/// The marker of a line of `xrandr` that describes a connected output.
pub open spec fn connected_marker() -> Seq<char> {
    seq![' ', 'c', 'o', 'n', 'n', 'e', 'c', 't', 'e', 'd']
}

/// The marker of the line of `xdpyinfo` that gives the screen size.
pub open spec fn dimensions_marker() -> Seq<char> {
    seq!['d', 'i', 'm', 'e', 'n', 's', 'i', 'o', 'n', 's', ':']
}

/// `xrandr_word_size` as a function value.
pub open spec fn xrandr_word_reader() -> spec_fn(Seq<char>) -> Option<(u32, u32)> {
    |w: Seq<char>| xrandr_word_size(w)
}

/// `xrandr_line_size` as a function value.
pub open spec fn xrandr_line_reader() -> spec_fn(Seq<char>) -> Option<(u32, u32)> {
    |l: Seq<char>| xrandr_line_size(l)
}

/// `xdpyinfo_line_size` as a function value.
pub open spec fn xdpyinfo_line_reader() -> spec_fn(Seq<char>) -> Option<(u32, u32)> {
    |l: Seq<char>| xdpyinfo_line_size(l)
}

/// The size on a line of `xrandr`: on a line with ` connected`, the first
/// geometry word that holds a size.
pub open spec fn xrandr_line_size(line: Seq<char>) -> Option<(u32, u32)> {
    if contains_run(line, connected_marker()) {
        first_found(words(line), xrandr_word_reader())
    } else {
        None
    }
}

/// The size on a line of `xdpyinfo`: on a line with `dimensions:`, its
/// second word read as `<width>x<height>`.
pub open spec fn xdpyinfo_line_size(line: Seq<char>) -> Option<(u32, u32)> {
    if contains_run(line, dimensions_marker()) {
        let ws = words(line);
        if ws.len() >= 2 {
            dims_of(ws[1])
        } else {
            None
        }
    } else {
        None
    }
}

/// The display size in the output of `xrandr`: from the first line that
/// gives one.
pub open spec fn xrandr_size(output: Seq<char>) -> Option<(u32, u32)> {
    first_found(split_on(output, '\n'), xrandr_line_reader())
}

/// The display size in the output of `xdpyinfo`: from the first line that
/// gives one.
pub open spec fn xdpyinfo_size(output: Seq<char>) -> Option<(u32, u32)> {
    first_found(split_on(output, '\n'), xdpyinfo_line_reader())
}

/// Items on which `f` has no result can be skipped.
pub proof fn lemma_first_found_skip(items: Seq<Seq<char>>, f: spec_fn(Seq<char>) -> Option<(u32, u32)>, i: int)
    requires
        0 <= i <= items.len(),
        forall|j: int| 0 <= j < i ==> f(#[trigger] items[j]) is None,
    ensures
        first_found(items, f) == first_found(items.subrange(i, items.len() as int), f),
    decreases i,
{
    if i == 0 {
        assert(items.subrange(0, items.len() as int) =~= items);
    } else {
        let rest = items.drop_first();
        assert(f(items[0]) is None);
        assert forall|j: int| 0 <= j < i - 1 implies f(#[trigger] rest[j]) is None by {
            assert(rest[j] == items[j + 1]);
        }
        lemma_first_found_skip(rest, f, i - 1);
        assert(rest.subrange(i - 1, rest.len() as int) =~= items.subrange(i, items.len() as int));
    }
}

/// The piece at `k` of a split, as a plain vector.
proof fn lemma_piece_view(pieces: &Vec<Vec<char>>, k: int)
    requires
        0 <= k < pieces.len(),
    ensures
        pieces@[k]@ == pieces.deep_view()[k],
{
    assert(pieces@[k]@ =~= pieces.deep_view()[k]);
}

/// Reads `<width>x<height>`.
pub fn dims_of_chars(r: &Vec<char>) -> (d: Option<(u32, u32)>)
    ensures
        d == dims_of(r@),
{
    let p = split_chars(r, 'x');
    if p.len() == 2 {
        proof {
            lemma_piece_view(&p, 0);
            lemma_piece_view(&p, 1);
        }
        match (parse_u32_chars(&p[0]), parse_u32_chars(&p[1])) {
            (Some(w), Some(h)) => Some((w, h)),
            _ => None,
        }
    } else {
        None
    }
}

/// The size in an `xrandr` geometry word, if it holds one.
pub fn xrandr_word_size_of(w: &Vec<char>) -> (d: Option<(u32, u32)>)
    ensures
        d == xrandr_word_size(w@),
{
    if contains_char(w, 'x') && contains_char(w, '+') {
        let parts = split_chars(w, '+');
        proof {
            lemma_split_on_len(w@, '+');
            lemma_piece_view(&parts, 0);
        }
        dims_of_chars(&parts[0])
    } else {
        None
    }
}

/// The characters of ` connected`.
fn connected_marker_chars() -> (m: Vec<char>)
    ensures
        m@ == connected_marker(),
{
    let m = vec![' ', 'c', 'o', 'n', 'n', 'e', 'c', 't', 'e', 'd'];
    assert(m@ =~= connected_marker());
    m
}

/// The characters of `dimensions:`.
fn dimensions_marker_chars() -> (m: Vec<char>)
    ensures
        m@ == dimensions_marker(),
{
    let m = vec!['d', 'i', 'm', 'e', 'n', 's', 'i', 'o', 'n', 's', ':'];
    assert(m@ =~= dimensions_marker());
    m
}

/// The size on a line of `xrandr`, if it gives one.
pub fn xrandr_line_size_of(line: &Vec<char>) -> (d: Option<(u32, u32)>)
    ensures
        d == xrandr_line_size(line@),
{
    let marker = connected_marker_chars();
    if !contains_chars(line, &marker) {
        return None;
    }
    let ws = split_words(line);
    let ghost items = words(line@);
    let ghost f = xrandr_word_reader();
    let mut k: usize = 0;
    while k < ws.len()
        invariant
            k <= ws.len(),
            ws.deep_view() == items,
            items == words(line@),
            contains_run(line@, connected_marker()),
            f == xrandr_word_reader(),
            forall|j: int| 0 <= j < k ==> f(#[trigger] items[j]) is None,
        decreases ws.len() - k,
    {
        proof {
            lemma_piece_view(&ws, k as int);
        }
        let found = xrandr_word_size_of(&ws[k]);
        if found.is_some() {
            proof {
                lemma_first_found_skip(items, f, k as int);
                let rest = items.subrange(k as int, items.len() as int);
                assert(rest[0] == items[k as int]);
                assert(f(items[k as int]) == found);
                assert(first_found(rest, f) == found);
                assert(first_found(items, f) == found);
            }
            return found;
        }
        k = k + 1;
    }
    proof {
        lemma_first_found_skip(items, f, k as int);
    }
    None
}

/// The size on a line of `xdpyinfo`, if it gives one.
pub fn xdpyinfo_line_size_of(line: &Vec<char>) -> (d: Option<(u32, u32)>)
    ensures
        d == xdpyinfo_line_size(line@),
{
    let marker = dimensions_marker_chars();
    if !contains_chars(line, &marker) {
        return None;
    }
    let ws = split_words(line);
    if ws.len() >= 2 {
        proof {
            lemma_piece_view(&ws, 1);
        }
        dims_of_chars(&ws[1])
    } else {
        None
    }
}

/// Reads the display size from the output of `xrandr`: the first line with
/// ` connected` that has a geometry word such as `4096x2560+0+0` gives it.
pub fn parse_xrandr_size(output: &str) -> (d: Option<(u32, u32)>)
    ensures
        d == xrandr_size(output@),
{
    let chars = chars_of(output);
    let lines = split_chars(&chars, '\n');
    let ghost items = split_on(output@, '\n');
    let ghost f = xrandr_line_reader();
    let mut i: usize = 0;
    while i < lines.len()
        invariant
            i <= lines.len(),
            lines.deep_view() == items,
            items == split_on(output@, '\n'),
            f == xrandr_line_reader(),
            forall|j: int| 0 <= j < i ==> f(#[trigger] items[j]) is None,
        decreases lines.len() - i,
    {
        proof {
            lemma_piece_view(&lines, i as int);
        }
        let found = xrandr_line_size_of(&lines[i]);
        if found.is_some() {
            proof {
                lemma_first_found_skip(items, f, i as int);
                let rest = items.subrange(i as int, items.len() as int);
                assert(rest[0] == items[i as int]);
                assert(f(items[i as int]) == found);
                assert(first_found(rest, f) == found);
                assert(first_found(items, f) == found);
            }
            return found;
        }
        i = i + 1;
    }
    proof {
        lemma_first_found_skip(items, f, i as int);
    }
    None
}

/// Reads the display size from the output of `xdpyinfo`: the first line
/// with `dimensions:` whose second word reads as `<width>x<height>` gives
/// it.
pub fn parse_xdpyinfo_size(output: &str) -> (d: Option<(u32, u32)>)
    ensures
        d == xdpyinfo_size(output@),
{
    let chars = chars_of(output);
    let lines = split_chars(&chars, '\n');
    let ghost items = split_on(output@, '\n');
    let ghost f = xdpyinfo_line_reader();
    let mut i: usize = 0;
    while i < lines.len()
        invariant
            i <= lines.len(),
            lines.deep_view() == items,
            items == split_on(output@, '\n'),
            f == xdpyinfo_line_reader(),
            forall|j: int| 0 <= j < i ==> f(#[trigger] items[j]) is None,
        decreases lines.len() - i,
    {
        proof {
            lemma_piece_view(&lines, i as int);
        }
        let found = xdpyinfo_line_size_of(&lines[i]);
        if found.is_some() {
            proof {
                lemma_first_found_skip(items, f, i as int);
                let rest = items.subrange(i as int, items.len() as int);
                assert(rest[0] == items[i as int]);
                assert(f(items[i as int]) == found);
                assert(first_found(rest, f) == found);
                assert(first_found(items, f) == found);
            }
            return found;
        }
        i = i + 1;
    }
    proof {
        lemma_first_found_skip(items, f, i as int);
    }
    None
}

/// The top-left corner that centers the game window on a display of size
/// `screen_width` x `screen_height`.
pub fn centered_window_position(screen_width: u32, screen_height: u32) -> (pos: (isize, isize))
    requires
        screen_width >= SCREEN_WIDTH,
        screen_height >= SCREEN_HEIGHT,
    ensures
        pos.0 == (screen_width - SCREEN_WIDTH) / 2,
        pos.1 == (screen_height - SCREEN_HEIGHT) / 2,
        2 * pos.0 + SCREEN_WIDTH <= screen_width <= 2 * pos.0 + SCREEN_WIDTH + 1,
        2 * pos.1 + SCREEN_HEIGHT <= screen_height <= 2 * pos.1 + SCREEN_HEIGHT + 1,
{
    let x = (screen_width - SCREEN_WIDTH as u32) / 2;
    let y = (screen_height - SCREEN_HEIGHT as u32) / 2;
    (x as isize, y as isize)
}

} // verus!
