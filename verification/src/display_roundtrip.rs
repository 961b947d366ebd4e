//! The display-size readers read back what the X tools print: a size
//! written in decimal in the geometry word of a connected `xrandr` output,
//! or after `dimensions:` in `xdpyinfo`, is the size read.

use vstd::prelude::*;

verus! {

use crate::display::{
    connected_marker,
    contains_run,
    digits_value,
    dimensions_marker,
    dims_of,
    first_found,
    is_digit,
    is_white,
    lemma_split_on_len,
    parse_u32,
    split_on,
    unsigned_digits,
    words,
    xdpyinfo_line_reader,
    xdpyinfo_line_size,
    xdpyinfo_size,
    xrandr_line_reader,
    xrandr_line_size,
    xrandr_size,
    xrandr_word_reader,
    xrandr_word_size,
};

/// The ASCII digit for `d < 10`.
pub open spec fn digit_char(d: nat) -> char {
    if d == 0 {
        '0'
    } else if d == 1 {
        '1'
    } else if d == 2 {
        '2'
    } else if d == 3 {
        '3'
    } else if d == 4 {
        '4'
    } else if d == 5 {
        '5'
    } else if d == 6 {
        '6'
    } else if d == 7 {
        '7'
    } else if d == 8 {
        '8'
    } else {
        '9'
    }
}

/// `n` written in decimal, without leading zeros.
pub open spec fn decimal(n: nat) -> Seq<char>
    decreases n,
{
    if n < 10 {
        seq![digit_char(n)]
    } else {
        decimal(n / 10).push(digit_char(n % 10))
    }
}

/// The word `connected`.
pub open spec fn connected_word() -> Seq<char> {
    seq!['c', 'o', 'n', 'n', 'e', 'c', 't', 'e', 'd']
}

/// A geometry word as `xrandr` prints it: `<w>x<h>+<x>+<y>`.
pub open spec fn geometry_word(w: nat, h: nat, x: nat, y: nat) -> Seq<char> {
    decimal(w) + seq!['x'] + decimal(h) + seq!['+'] + decimal(x) + seq!['+'] + decimal(y)
}

/// The line of `xrandr` for a connected output named `name` at geometry
/// `<w>x<h>+<x>+<y>`.
pub open spec fn xrandr_connected_line(name: Seq<char>, w: nat, h: nat, x: nat, y: nat) -> Seq<char> {
    name + seq![' '] + connected_word() + seq![' '] + geometry_word(w, h, x, y)
}

/// The line of `xdpyinfo` that gives the size `<w>x<h>`, followed by more
/// text on the same line.
pub open spec fn xdpyinfo_dimensions_line(w: nat, h: nat, more: Seq<char>) -> Seq<char> {
    dimensions_marker() + seq![' '] + decimal(w) + seq!['x'] + decimal(h) + seq![' '] + more
}

/// `s` holds no `c`.
pub open spec fn lacks(s: Seq<char>, c: char) -> bool {
    forall|i: int| 0 <= i < s.len() ==> #[trigger] s[i] != c
}

/// `s` holds no white space.
pub open spec fn no_white(s: Seq<char>) -> bool {
    forall|i: int| 0 <= i < s.len() ==> !is_white(#[trigger] s[i])
}

/// The digit for `d` is an ASCII digit worth `d`.
pub proof fn lemma_digit_char(d: nat)
    requires
        d < 10,
    ensures
        is_digit(digit_char(d)),
        digit_char(d) as int - '0' as int == d,
{
}

/// A decimal numeral is a run of digits with the number's value.
pub proof fn lemma_decimal(n: nat)
    ensures
        decimal(n).len() >= 1,
        forall|i: int| 0 <= i < decimal(n).len() ==> #[trigger] is_digit(decimal(n)[i]),
        digits_value(decimal(n)) == n,
    decreases n,
{
    if n < 10 {
        lemma_digit_char(n);
        assert(decimal(n).drop_last() =~= Seq::<char>::empty());
        assert(digits_value(Seq::<char>::empty()) == 0);
        assert(decimal(n).last() == digit_char(n));
    } else {
        lemma_digit_char(n % 10);
        lemma_decimal(n / 10);
        let d = decimal(n);
        assert(d.drop_last() =~= decimal(n / 10));
        assert(d.last() == digit_char(n % 10));
        assert(n == (n / 10) * 10 + n % 10);
        assert(digits_value(d) == digits_value(decimal(n / 10)) * 10 + (d.last() as int - '0' as int));
        assert forall|i: int| 0 <= i < d.len() implies #[trigger] is_digit(d[i]) by {
            if i < d.len() - 1 {
                assert(d[i] == decimal(n / 10)[i]);
            }
        }
    }
}

/// A run of digits holds no `x`, no `+` and no white space.
pub proof fn lemma_digits_plain(d: Seq<char>)
    requires
        forall|i: int| 0 <= i < d.len() ==> #[trigger] is_digit(d[i]),
    ensures
        lacks(d, 'x'),
        lacks(d, '+'),
        lacks(d, '\n'),
        no_white(d),
{
    assert forall|i: int| 0 <= i < d.len() implies #[trigger] d[i] != 'x' && d[i] != '+' && d[i] != '\n'
        && !is_white(d[i]) by {
        assert(is_digit(d[i]));
    }
}

/// A decimal numeral reads back as its number.
pub proof fn lemma_parse_decimal(n: nat)
    requires
        n <= u32::MAX,
    ensures
        parse_u32(decimal(n)) == Some(n as u32),
{
    lemma_decimal(n);
    assert(is_digit(decimal(n)[0]));
    assert(unsigned_digits(decimal(n)) == decimal(n));
}

/// Text without the separator is one piece.
pub proof fn lemma_split_whole(a: Seq<char>, sep: char)
    requires
        lacks(a, sep),
    ensures
        split_on(a, sep) == seq![a],
    decreases a.len(),
{
    if a.len() > 0 {
        let p = a.drop_last();
        assert(lacks(p, sep)) by {
            assert forall|i: int| 0 <= i < p.len() implies #[trigger] p[i] != sep by {
                assert(p[i] == a[i]);
            }
        }
        lemma_split_whole(p, sep);
        assert(a.last() != sep);
        assert(p.push(a.last()) =~= a);
        assert(split_on(a, sep) =~= seq![a]);
    } else {
        assert(a =~= Seq::<char>::empty());
    }
}

/// The pieces of `a`, the separator, `b` are those of `a` then those of `b`.
pub proof fn lemma_split_concat(a: Seq<char>, sep: char, b: Seq<char>)
    ensures
        split_on(a + seq![sep] + b, sep) == split_on(a, sep) + split_on(b, sep),
    decreases b.len(),
{
    let s = a + seq![sep] + b;
    lemma_split_on_len(a, sep);
    if b.len() == 0 {
        assert(s.drop_last() =~= a);
        assert(split_on(b, sep) =~= seq![Seq::<char>::empty()]);
        assert(split_on(s, sep) =~= split_on(a, sep) + split_on(b, sep));
    } else {
        let b0 = b.drop_last();
        lemma_split_concat(a, sep, b0);
        lemma_split_on_len(b0, sep);
        assert(s.drop_last() =~= a + seq![sep] + b0);
        assert(s.last() == b.last());
        assert(split_on(s, sep) =~= split_on(a, sep) + split_on(b, sep));
    }
}

/// A word without white space is its only word.
pub proof fn lemma_words_single(a: Seq<char>)
    requires
        a.len() >= 1,
        no_white(a),
    ensures
        words(a) == seq![a],
    decreases a.len(),
{
    let p = a.drop_last();
    assert(!is_white(a.last()));
    if p.len() == 0 {
        assert(a =~= seq![a.last()]);
        assert(words(p) =~= Seq::<Seq<char>>::empty());
        assert(words(a) =~= seq![a]);
    } else {
        assert(no_white(p)) by {
            assert forall|i: int| 0 <= i < p.len() implies !is_white(#[trigger] p[i]) by {
                assert(p[i] == a[i]);
            }
        }
        lemma_words_single(p);
        assert(!is_white(a[a.len() - 2]));
        assert(p.push(a.last()) =~= a);
        assert(words(a) =~= seq![a]);
    }
}

/// Text that ends in a character that is not white space has a word.
pub proof fn lemma_words_nonempty(s: Seq<char>)
    requires
        s.len() >= 1,
        !is_white(s.last()),
    ensures
        words(s).len() >= 1,
    decreases s.len(),
{
    if s.len() >= 2 && !is_white(s[s.len() - 2]) {
        let p = s.drop_last();
        assert(p.last() == s[s.len() - 2]);
        lemma_words_nonempty(p);
    }
}

/// The words of `a`, a white space character, `b` are those of `a` then
/// those of `b`.
pub proof fn lemma_words_concat(a: Seq<char>, c: char, b: Seq<char>)
    requires
        is_white(c),
    ensures
        words(a + seq![c] + b) == words(a) + words(b),
    decreases b.len(),
{
    let s = a + seq![c] + b;
    if b.len() == 0 {
        assert(s.drop_last() =~= a);
        assert(words(s) =~= words(a) + words(b));
    } else {
        let b0 = b.drop_last();
        lemma_words_concat(a, c, b0);
        assert(s.drop_last() =~= a + seq![c] + b0);
        assert(s.last() == b.last());
        if b.len() >= 2 {
            assert(s[s.len() - 2] == b[b.len() - 2]);
            if !is_white(b[b.len() - 2]) {
                assert(b0.last() == b[b.len() - 2]);
                lemma_words_nonempty(b0);
            }
        } else {
            assert(s[s.len() - 2] == c);
            assert(b0 =~= Seq::<char>::empty());
        }
        assert(words(s) =~= words(a) + words(b));
    }
}

/// `<w>x<h>` reads as the size `(w, h)`.
pub proof fn lemma_dims_of_decimal(w: nat, h: nat)
    requires
        w <= u32::MAX,
        h <= u32::MAX,
    ensures
        dims_of(decimal(w) + seq!['x'] + decimal(h)) == Some((w as u32, h as u32)),
{
    lemma_decimal(w);
    lemma_decimal(h);
    lemma_digits_plain(decimal(w));
    lemma_digits_plain(decimal(h));
    lemma_split_concat(decimal(w), 'x', decimal(h));
    lemma_split_whole(decimal(w), 'x');
    lemma_split_whole(decimal(h), 'x');
    lemma_parse_decimal(w);
    lemma_parse_decimal(h);
    assert(split_on(decimal(w) + seq!['x'] + decimal(h), 'x') =~= seq![decimal(w), decimal(h)]);
}

/// A geometry word `<w>x<h>+<x>+<y>` is one word and holds the size
/// `(w, h)`.
pub proof fn lemma_geometry_word(w: nat, h: nat, x: nat, y: nat)
    requires
        w <= u32::MAX,
        h <= u32::MAX,
    ensures
        xrandr_word_size(geometry_word(w, h, x, y)) == Some((w as u32, h as u32)),
        no_white(geometry_word(w, h, x, y)),
        geometry_word(w, h, x, y).len() >= 1,
{
    let dims = decimal(w) + seq!['x'] + decimal(h);
    let tail = decimal(x) + seq!['+'] + decimal(y);
    let geom = geometry_word(w, h, x, y);
    lemma_decimal(w);
    lemma_decimal(h);
    lemma_decimal(x);
    lemma_decimal(y);
    lemma_digits_plain(decimal(w));
    lemma_digits_plain(decimal(h));
    lemma_digits_plain(decimal(x));
    lemma_digits_plain(decimal(y));
    assert(geom =~= dims + seq!['+'] + tail);
    lemma_split_concat(dims, '+', tail);
    assert(lacks(dims, '+')) by {
        assert forall|i: int| 0 <= i < dims.len() implies #[trigger] dims[i] != '+' by {
            if i < decimal(w).len() {
                assert(dims[i] == decimal(w)[i]);
            } else if i > decimal(w).len() {
                assert(dims[i] == decimal(h)[i - decimal(w).len() - 1]);
            }
        }
    }
    lemma_split_whole(dims, '+');
    lemma_split_on_len(tail, '+');
    assert(split_on(geom, '+')[0] == dims);
    assert(geom[decimal(w).len() as int] == 'x');
    assert(geom[dims.len() as int] == '+');
    lemma_dims_of_decimal(w, h);
    assert(no_white(geom)) by {
        assert forall|i: int| 0 <= i < geom.len() implies !is_white(#[trigger] geom[i]) by {
            let a = decimal(w).len() as int;
            let b = a + 1 + decimal(h).len();
            let c = b + 1 + decimal(x).len();
            if i < a {
                assert(geom[i] == decimal(w)[i]);
            } else if a < i < b {
                assert(geom[i] == decimal(h)[i - a - 1]);
            } else if b < i < c {
                assert(geom[i] == decimal(x)[i - b - 1]);
            } else if c < i {
                assert(geom[i] == decimal(y)[i - c - 1]);
            }
        }
    }
}

/// The line of a connected output reads as the size of its geometry word.
pub proof fn lemma_xrandr_line(name: Seq<char>, w: nat, h: nat, x: nat, y: nat)
    requires
        name.len() >= 1,
        no_white(name),
        lacks(name, '+'),
        w <= u32::MAX,
        h <= u32::MAX,
    ensures
        xrandr_line_size(xrandr_connected_line(name, w, h, x, y)) == Some((w as u32, h as u32)),
        lacks(xrandr_connected_line(name, w, h, x, y), '\n'),
{
    let geom = geometry_word(w, h, x, y);
    let line = xrandr_connected_line(name, w, h, x, y);
    lemma_geometry_word(w, h, x, y);
    assert(no_white(connected_word()));
    lemma_words_single(name);
    lemma_words_single(connected_word());
    lemma_words_single(geom);
    lemma_words_concat(connected_word(), ' ', geom);
    assert(line =~= name + seq![' '] + (connected_word() + seq![' '] + geom));
    lemma_words_concat(name, ' ', connected_word() + seq![' '] + geom);
    let ws = words(line);
    assert(ws =~= seq![name, connected_word(), geom]);
    assert(!name.contains('+'));
    assert(connected_word()[0] != 'x');
    assert(!connected_word().contains('x'));
    let f = xrandr_word_reader();
    let ws2 = ws.drop_first().drop_first();
    assert(ws2 =~= seq![geom]);
    assert(f(ws2[0]) == Some((w as u32, h as u32)));
    assert(first_found(ws2, f) == Some((w as u32, h as u32)));
    let ws1 = ws.drop_first();
    assert(ws1[0] == connected_word());
    assert(f(ws1[0]) is None);
    assert(ws1.drop_first() =~= ws2);
    assert(first_found(ws1, f) == Some((w as u32, h as u32)));
    assert(ws[0] == name);
    assert(f(ws[0]) is None);
    assert(first_found(ws, f) == Some((w as u32, h as u32)));
    let n = name.len() as int;
    assert(line.subrange(n, n + connected_marker().len()) =~= connected_marker());
    assert(contains_run(line, connected_marker()));
    assert forall|i: int| 0 <= i < line.len() implies #[trigger] line[i] != '\n' by {
        let p = name.len() as int;
        let q = p + 1 + connected_word().len();
        if i < p {
            assert(line[i] == name[i]);
            assert(!is_white(name[i]));
        } else if i == p || i == q {
        } else if i < q {
            assert(line[i] == connected_word()[i - p - 1]);
        } else {
            assert(line[i] == geom[i - q - 1]);
            assert(!is_white(geom[i - q - 1]));
        }
    }
}

/// `xrandr` prints a connected output as `<name> connected <w>x<h>+<x>+<y>`;
/// on such a line, first in the output, the reader finds the size `(w, h)`,
/// whatever lines follow. The name is one word without `+`.
pub proof fn lemma_xrandr_reads_connected_size(
    name: Seq<char>,
    w: nat,
    h: nat,
    x: nat,
    y: nat,
    rest: Seq<char>,
)
    requires
        name.len() >= 1,
        no_white(name),
        lacks(name, '+'),
        w <= u32::MAX,
        h <= u32::MAX,
    ensures
        xrandr_size(xrandr_connected_line(name, w, h, x, y) + seq!['\n'] + rest) == Some((w as u32, h as u32)),
{
    let line = xrandr_connected_line(name, w, h, x, y);
    lemma_xrandr_line(name, w, h, x, y);
    lemma_split_concat(line, '\n', rest);
    lemma_split_whole(line, '\n');
    let lines = split_on(line + seq!['\n'] + rest, '\n');
    assert(lines[0] == line);
    assert(xrandr_line_reader()(lines[0]) == Some((w as u32, h as u32)));
}

/// `xdpyinfo` prints the screen size as `dimensions: <w>x<h> ...`; on such a
/// line, first in the output, the reader finds the size `(w, h)`.
pub proof fn lemma_xdpyinfo_reads_dimensions(w: nat, h: nat, more: Seq<char>, rest: Seq<char>)
    requires
        lacks(more, '\n'),
        w <= u32::MAX,
        h <= u32::MAX,
    ensures
        xdpyinfo_size(xdpyinfo_dimensions_line(w, h, more) + seq!['\n'] + rest) == Some((w as u32, h as u32)),
{
    let dims = decimal(w) + seq!['x'] + decimal(h);
    let line = xdpyinfo_dimensions_line(w, h, more);
    lemma_decimal(w);
    lemma_decimal(h);
    lemma_digits_plain(decimal(w));
    lemma_digits_plain(decimal(h));
    assert(no_white(dims)) by {
        assert forall|i: int| 0 <= i < dims.len() implies !is_white(#[trigger] dims[i]) by {
            let a = decimal(w).len() as int;
            if i < a {
                assert(dims[i] == decimal(w)[i]);
            } else if i > a {
                assert(dims[i] == decimal(h)[i - a - 1]);
            }
        }
    }
    assert(no_white(dimensions_marker()));
    lemma_words_single(dimensions_marker());
    lemma_words_single(dims);
    assert(line =~= dimensions_marker() + seq![' '] + (dims + seq![' '] + more));
    lemma_words_concat(dims, ' ', more);
    lemma_words_concat(dimensions_marker(), ' ', dims + seq![' '] + more);
    let ws = words(line);
    assert(ws =~= seq![dimensions_marker(), dims] + words(more));
    assert(ws[1] == dims);
    lemma_dims_of_decimal(w, h);
    let z = 0int;
    assert(line.subrange(z, z + dimensions_marker().len()) =~= dimensions_marker());
    assert(contains_run(line, dimensions_marker()));
    assert(xdpyinfo_line_size(line) == Some((w as u32, h as u32)));

    assert(lacks(line, '\n')) by {
        assert forall|i: int| 0 <= i < line.len() implies #[trigger] line[i] != '\n' by {
            let p = dimensions_marker().len() as int;
            let q = p + 1 + dims.len();
            if i < p {
                assert(line[i] == dimensions_marker()[i]);
            } else if i == p || i == q {
            } else if i < q {
                assert(line[i] == dims[i - p - 1]);
                assert(!is_white(dims[i - p - 1]));
            } else {
                assert(line[i] == more[i - q - 1]);
            }
        }
    }
    lemma_split_concat(line, '\n', rest);
    lemma_split_whole(line, '\n');
    let lines = split_on(line + seq!['\n'] + rest, '\n');
    assert(lines[0] == line);
    assert(xdpyinfo_line_reader()(lines[0]) == Some((w as u32, h as u32)));
}

/// An empty line holds no size for either reader.
pub proof fn lemma_empty_line_sizeless()
    ensures
        xrandr_line_size(Seq::<char>::empty()) is None,
        xdpyinfo_line_size(Seq::<char>::empty()) is None,
{
    assert(!contains_run(Seq::<char>::empty(), connected_marker()));
    assert(!contains_run(Seq::<char>::empty(), dimensions_marker()));
}

/// Lines that give no size do not matter to `xrandr`'s reader: a line
/// without a size (a disconnected output, a mode line, an empty line) in
/// front of an output leaves the size read from that output as it is.
pub proof fn lemma_xrandr_skips_sizeless_line(l: Seq<char>, o: Seq<char>)
    requires
        lacks(l, '\n'),
        xrandr_line_size(l) is None,
    ensures
        xrandr_size(l + seq!['\n'] + o) == xrandr_size(o),
{
    lemma_split_concat(l, '\n', o);
    lemma_split_whole(l, '\n');
    let lines = split_on(l + seq!['\n'] + o, '\n');
    assert(lines =~= seq![l] + split_on(o, '\n'));
    assert(lines.drop_first() =~= split_on(o, '\n'));
    assert(xrandr_line_reader()(lines[0]) is None);
}

/// Lines that give no size do not matter to `xdpyinfo`'s reader: a line
/// without a size (a header, an empty line) in front of an output leaves
/// the size read from that output as it is.
pub proof fn lemma_xdpyinfo_skips_sizeless_line(l: Seq<char>, o: Seq<char>)
    requires
        lacks(l, '\n'),
        xdpyinfo_line_size(l) is None,
    ensures
        xdpyinfo_size(l + seq!['\n'] + o) == xdpyinfo_size(o),
{
    lemma_split_concat(l, '\n', o);
    lemma_split_whole(l, '\n');
    let lines = split_on(l + seq!['\n'] + o, '\n');
    assert(lines =~= seq![l] + split_on(o, '\n'));
    assert(lines.drop_first() =~= split_on(o, '\n'));
    assert(xdpyinfo_line_reader()(lines[0]) is None);
}

/// A connected output's line read after a line without a size, such as a
/// disconnected output listed first, still gives its size.
pub proof fn lemma_xrandr_reads_after_sizeless_line(
    l: Seq<char>,
    name: Seq<char>,
    w: nat,
    h: nat,
    x: nat,
    y: nat,
    rest: Seq<char>,
)
    requires
        lacks(l, '\n'),
        xrandr_line_size(l) is None,
        name.len() >= 1,
        no_white(name),
        lacks(name, '+'),
        w <= u32::MAX,
        h <= u32::MAX,
    ensures
        xrandr_size(l + seq!['\n'] + (xrandr_connected_line(name, w, h, x, y) + seq!['\n'] + rest)) == Some(
            (w as u32, h as u32),
        ),
{
    lemma_xrandr_skips_sizeless_line(l, xrandr_connected_line(name, w, h, x, y) + seq!['\n'] + rest);
    lemma_xrandr_reads_connected_size(name, w, h, x, y, rest);
}

/// A dimensions line read after a line without a size, such as the empty
/// line before `screen #0:`, still gives its size.
pub proof fn lemma_xdpyinfo_reads_after_sizeless_line(
    l: Seq<char>,
    w: nat,
    h: nat,
    more: Seq<char>,
    rest: Seq<char>,
)
    requires
        lacks(l, '\n'),
        xdpyinfo_line_size(l) is None,
        lacks(more, '\n'),
        w <= u32::MAX,
        h <= u32::MAX,
    ensures
        xdpyinfo_size(l + seq!['\n'] + (xdpyinfo_dimensions_line(w, h, more) + seq!['\n'] + rest)) == Some(
            (w as u32, h as u32),
        ),
{
    lemma_xdpyinfo_skips_sizeless_line(l, xdpyinfo_dimensions_line(w, h, more) + seq!['\n'] + rest);
    lemma_xdpyinfo_reads_dimensions(w, h, more, rest);
}

/// Reading a number accepts a leading `+` and leading zeros, and rejects a
/// sign `-`, a lone `+` and the empty text.
pub proof fn lemma_parse_u32_forms(n: nat, t: Seq<char>)
    requires
        n <= u32::MAX,
    ensures
        parse_u32(seq!['+'] + decimal(n)) == Some(n as u32),
        parse_u32(seq!['0'] + decimal(n)) == Some(n as u32),
        parse_u32(seq!['-'] + t) is None,
        parse_u32(seq!['+']) is None,
        parse_u32(Seq::<char>::empty()) is None,
{
    lemma_decimal(n);
    let d = decimal(n);
    assert((seq!['+'] + d).drop_first() =~= d);
    assert(unsigned_digits(seq!['+'] + d) == d);
    let z = seq!['0'] + d;
    assert(unsigned_digits(z) == z);
    assert forall|i: int| 0 <= i < z.len() implies #[trigger] is_digit(z[i]) by {
        if i > 0 {
            assert(z[i] == d[i - 1]);
        }
    }
    lemma_digits_value_prepend_zero(d);
    let m = seq!['-'] + t;
    assert(unsigned_digits(m) == m);
    assert(!is_digit(m[0]));
    assert((seq!['+']).drop_first() =~= Seq::<char>::empty());
}

/// A leading zero does not change the value of a run of digits.
pub proof fn lemma_digits_value_prepend_zero(d: Seq<char>)
    ensures
        digits_value(seq!['0'] + d) == digits_value(d),
    decreases d.len(),
{
    if d.len() == 0 {
        let z = seq!['0'];
        assert(seq!['0'] + d =~= z);
        assert(z.drop_last() =~= Seq::<char>::empty());
        assert(digits_value(z) == digits_value(z.drop_last()) * 10 + (z.last() as int - '0' as int));
    } else {
        lemma_digits_value_prepend_zero(d.drop_last());
        assert((seq!['0'] + d).drop_last() =~= seq!['0'] + d.drop_last());
        assert((seq!['0'] + d).last() == d.last());
        let z = seq!['0'] + d;
        assert(digits_value(z) == digits_value(z.drop_last()) * 10 + (z.last() as int - '0' as int));
    }
}

} // verus!
