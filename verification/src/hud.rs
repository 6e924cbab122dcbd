//! Human-readable overlay for the operator's visual check: the frame number
//! as a timecode `MM:SS:FF` and as a decimal counter, drawn with
//! seven-segment glyphs in the middle of the frame, away from the identifier
//! bands. Luma only, fixed size and position: the same in every run.

use vstd::prelude::*;
use crate::idcode::{paint_span, BAND_H, CELL};
use crate::text::{
    chars_of, decimal, digit_value, is_digit, lemma_decimal_len_below, lemma_zero_padded_shape,
    pow10, push_char, push_zero_padded, zero_padded,
};

verus! {

/// Luma of the glyph strokes.
pub const INK: u8 = 235;
/// Luma of the box behind the glyphs.
pub const PAPER: u8 = 16;
/// Height of the box: the timecode line, a gap, the counter line, padding.
pub const BOX_H: usize = 232;
/// Room kept free above and below the box for the identifier bands.
pub const MARGIN: usize = 128;

/// A box of opaque grey pixels: left column, top line, width and height in
/// pixels, and luma.
pub struct Area {
    pub x: int,
    pub y: int,
    pub w: int,
    pub h: int,
    pub v: u8,
}

pub open spec fn area(x: int, y: int, w: int, h: int, v: u8) -> Area {
    Area { x, y, w, h, v }
}

/// `f` with the first `rows` lines of `a` painted, top to bottom.
pub open spec fn paint_lines(f: Seq<u8>, stride: int, a: Area, rows: nat) -> Seq<u8>
    decreases rows,
{
    if rows == 0 {
        f
    } else {
        paint_span(paint_lines(f, stride, a, (rows - 1) as nat), (a.y + rows - 1) * stride + a.x * 4, a.w * 4, a.v)
    }
}

/// `f` with the area `a` painted.
pub open spec fn paint_area(f: Seq<u8>, stride: int, a: Area) -> Seq<u8> {
    if a.h <= 0 { f } else { paint_lines(f, stride, a, a.h as nat) }
}

/// `f` with `areas` painted in order, later ones over earlier ones.
pub open spec fn paint_all(f: Seq<u8>, stride: int, areas: Seq<Area>) -> Seq<u8>
    decreases areas.len(),
{
    if areas.len() == 0 {
        f
    } else {
        paint_area(paint_all(f, stride, areas.drop_last()), stride, areas.last())
    }
}

/// `a` lies in a frame of `len` bytes with `stride`: its coordinates are not
/// negative and its last line ends within the frame.
pub open spec fn fits(len: int, stride: int, a: Area) -> bool {
    &&& 0 <= a.x && 0 <= a.y && 0 <= a.w && 0 <= a.h
    &&& a.y + a.h <= usize::MAX
    &&& a.h > 0 ==> (a.y + a.h - 1) * stride + (a.x + a.w) * 4 <= len
}

proof fn lemma_paint_lines_len(f: Seq<u8>, stride: int, a: Area, rows: nat)
    ensures
        paint_lines(f, stride, a, rows).len() == f.len(),
    decreases rows,
{
    if rows > 0 {
        lemma_paint_lines_len(f, stride, a, (rows - 1) as nat);
    }
}

proof fn lemma_paint_all_len(f: Seq<u8>, stride: int, areas: Seq<Area>)
    ensures
        paint_all(f, stride, areas).len() == f.len(),
    decreases areas.len(),
{
    if areas.len() > 0 {
        lemma_paint_all_len(f, stride, areas.drop_last());
        let g = paint_all(f, stride, areas.drop_last());
        if areas.last().h > 0 {
            lemma_paint_lines_len(g, stride, areas.last(), areas.last().h as nat);
        }
    }
}

proof fn lemma_paint_push(f: Seq<u8>, stride: int, areas: Seq<Area>, a: Area)
    ensures
        paint_all(f, stride, areas.push(a)) == paint_area(paint_all(f, stride, areas), stride, a),
{
    assert(areas.push(a).drop_last() =~= areas);
}

proof fn lemma_paint_concat(f: Seq<u8>, stride: int, a: Seq<Area>, b: Seq<Area>)
    ensures
        paint_all(f, stride, a + b) == paint_all(paint_all(f, stride, a), stride, b),
    decreases b.len(),
{
    if b.len() == 0 {
        assert(a + b =~= a);
    } else {
        lemma_paint_concat(f, stride, a, b.drop_last());
        assert((a + b).drop_last() =~= a + b.drop_last());
        assert((a + b).last() == b.last());
    }
}

/// An area inside one that fits also fits.
proof fn lemma_inside(len: int, stride: int, outer: Area, inner: Area)
    requires
        stride >= 0,
        fits(len, stride, outer),
        outer.x <= inner.x,
        outer.y <= inner.y,
        0 <= inner.w,
        0 <= inner.h,
        inner.x + inner.w <= outer.x + outer.w,
        inner.y + inner.h <= outer.y + outer.h,
    ensures
        fits(len, stride, inner),
{
    if inner.h > 0 {
        assert((inner.y + inner.h - 1) * stride <= (outer.y + outer.h - 1) * stride) by (nonlinear_arith)
            requires
                inner.y + inner.h <= outer.y + outer.h,
                stride >= 0,
        ;
    }
}

/// Paint the `w`x`h` box at (`x`, `y`) in grey `v`.
pub fn rect(frame: &mut [u8], stride: usize, x: usize, y: usize, w: usize, h: usize, v: u8)
    requires
        fits(old(frame)@.len() as int, stride as int, area(x as int, y as int, w as int, h as int, v)),
    ensures
        final(frame)@ == paint_area(old(frame)@, stride as int, area(x as int, y as int, w as int, h as int, v)),
{
    let ghost a = area(x as int, y as int, w as int, h as int, v);
    let ghost f0 = frame@;
    let flen = frame.len();
    let mut row: usize = 0;
    while row < h
        invariant
            row <= h,
            flen == f0.len(),
            a == area(x as int, y as int, w as int, h as int, v),
            fits(f0.len() as int, stride as int, a),
            frame@ == paint_lines(f0, stride as int, a, row as nat),
        decreases h - row,
    {
        proof { lemma_paint_lines_len(f0, stride as int, a, row as nat); }
        assert((y + row) * stride <= (y + h - 1) * stride) by (nonlinear_arith)
            requires
                row + 1 <= h,
        ;
        let start = (y + row) * stride + x * 4;
        assert(start + w * 4 <= f0.len());
        let ghost before = frame@;
        let mut j: usize = 0;
        while j < w * 4
            invariant
                j <= w * 4,
                start + w * 4 <= flen,
                flen == f0.len(),
                before.len() == f0.len(),
                frame@.len() == f0.len(),
                frame@ == paint_span(before, start as int, j as int, v),
            decreases w * 4 - j,
        {
            frame[start + j] = if j % 4 < 3 { v } else { 255 };
            j = j + 1;
            assert(frame@ =~= paint_span(before, start as int, j as int, v));
        }
        row = row + 1;
    }
}

/// The seven-segment pattern of digit `d`: bit 0 the top stroke, then
/// clockwise (top right, bottom right, bottom, bottom left, top left), bit 6
/// the middle stroke.
pub open spec fn segment_mask(d: nat) -> u8 {
    if d == 0 { 0x3F } else if d == 1 { 0x06 } else if d == 2 { 0x5B } else if d == 3 { 0x4F }
    else if d == 4 { 0x66 } else if d == 5 { 0x6D } else if d == 6 { 0x7D } else if d == 7 { 0x07 }
    else if d == 8 { 0x7F } else { 0x6F }
}

fn segments(ch: char) -> (m: u8)
    requires
        is_digit(ch),
    ensures
        m == segment_mask(digit_value(ch)),
{
    if ch == '0' { 0x3F } else if ch == '1' { 0x06 } else if ch == '2' { 0x5B } else if ch == '3' { 0x4F }
    else if ch == '4' { 0x66 } else if ch == '5' { 0x6D } else if ch == '6' { 0x7D } else if ch == '7' { 0x07 }
    else if ch == '8' { 0x7F } else { 0x6F }
}

/// `s`, followed by `a` when `on`.
pub open spec fn push_if(s: Seq<Area>, on: bool, a: Area) -> Seq<Area> {
    if on { s.push(a) } else { s }
}

/// The strokes of glyph `ch` (a digit or `:`) drawn at (`x`, `y`) in a font
/// of `u`-pixel units: 4 units wide, 7 tall, strokes one unit thick.
pub open spec fn glyph_areas(x: int, y: int, u: int, ch: char) -> Seq<Area> {
    let w = 4 * u;
    let h = 7 * u;
    let t = u;
    if ch == ':' {
        seq![area(x + w / 2 - t / 2, y + 2 * u - t / 2, t, t, INK),
             area(x + w / 2 - t / 2, y + 5 * u - t / 2, t, t, INK)]
    } else {
        let m = segment_mask(digit_value(ch));
        let s1 = push_if(seq![], m & 0x01 != 0, area(x, y, w, t, INK));
        let s2 = push_if(s1, m & 0x02 != 0, area(x + w - t, y, t, h / 2, INK));
        let s3 = push_if(s2, m & 0x04 != 0, area(x + w - t, y + h / 2, t, h / 2, INK));
        let s4 = push_if(s3, m & 0x08 != 0, area(x, y + h - t, w, t, INK));
        let s5 = push_if(s4, m & 0x10 != 0, area(x, y + h / 2, t, h / 2, INK));
        let s6 = push_if(s5, m & 0x20 != 0, area(x, y, t, h / 2, INK));
        push_if(s6, m & 0x40 != 0, area(x, y + h / 2 - t / 2, w, t, INK))
    }
}

/// Paint one stroke of a glyph, when `on`, keeping track of the strokes so far.
fn stroke(
    frame: &mut [u8],
    stride: usize,
    on: bool,
    x: usize,
    y: usize,
    w: usize,
    h: usize,
    Ghost(f0): Ghost<Seq<u8>>,
    Ghost(done): Ghost<Seq<Area>>,
)
    requires
        old(frame)@ == paint_all(f0, stride as int, done),
        fits(old(frame)@.len() as int, stride as int, area(x as int, y as int, w as int, h as int, INK)),
    ensures
        final(frame)@ == paint_all(f0, stride as int, push_if(done, on, area(x as int, y as int, w as int, h as int, INK))),
{
    if on {
        rect(frame, stride, x, y, w, h, INK);
        proof { lemma_paint_push(f0, stride as int, done, area(x as int, y as int, w as int, h as int, INK)); }
    }
}

/// Draw glyph `ch` (a digit or `:`) at (`x`, `y`) in a font of `unit`-pixel units.
pub fn glyph(frame: &mut [u8], stride: usize, x: usize, y: usize, unit: usize, ch: char)
    requires
        is_digit(ch) || ch == ':',
        fits(old(frame)@.len() as int, stride as int, area(x as int, y as int, 4 * unit, 7 * unit, INK)),
    ensures
        final(frame)@ == paint_all(old(frame)@, stride as int, glyph_areas(x as int, y as int, unit as int, ch)),
{
    let ghost f0 = frame@;
    let ghost len = f0.len() as int;
    let ghost st = stride as int;
    let ghost outer = area(x as int, y as int, 4 * unit, 7 * unit, INK);
    let flen = frame.len();
    assert(unit > 0 ==> (x + 4 * unit) * 4 <= flen);
    let w = 4 * unit;
    let h = 7 * unit;
    let t = unit;
    if ch == ':' {
        let ax = x + w / 2 - t / 2;
        let ay = y + 2 * unit - t / 2;
        let by = y + 5 * unit - t / 2;
        proof {
            lemma_inside(len, st, outer, area(ax as int, ay as int, t as int, t as int, INK));
            lemma_inside(len, st, outer, area(ax as int, by as int, t as int, t as int, INK));
        }
        rect(frame, stride, ax, ay, t, t, INK);
        proof {
            lemma_paint_push(f0, st, seq![], area(ax as int, ay as int, t as int, t as int, INK));
            lemma_paint_all_len(f0, st, seq![area(ax as int, ay as int, t as int, t as int, INK)]);
            assert(seq![].push(area(ax as int, ay as int, t as int, t as int, INK)) =~= seq![area(ax as int, ay as int, t as int, t as int, INK)]);
        }
        rect(frame, stride, ax, by, t, t, INK);
        proof {
            lemma_paint_push(f0, st, seq![area(ax as int, ay as int, t as int, t as int, INK)],
                area(ax as int, by as int, t as int, t as int, INK));
            assert(seq![area(ax as int, ay as int, t as int, t as int, INK)].push(area(ax as int, by as int, t as int, t as int, INK))
                =~= glyph_areas(x as int, y as int, unit as int, ch));
        }
        return;
    }
    let m = segments(ch);
    let ghost s0: Seq<Area> = seq![];
    let ghost a1 = area(x as int, y as int, w as int, t as int, INK);
    let ghost a2 = area((x + w - t) as int, y as int, t as int, (h / 2) as int, INK);
    let ghost a3 = area((x + w - t) as int, (y + h / 2) as int, t as int, (h / 2) as int, INK);
    let ghost a4 = area(x as int, (y + h - t) as int, w as int, t as int, INK);
    let ghost a5 = area(x as int, (y + h / 2) as int, t as int, (h / 2) as int, INK);
    let ghost a6 = area(x as int, y as int, t as int, (h / 2) as int, INK);
    let ghost a7 = area(x as int, (y + h / 2 - t / 2) as int, w as int, t as int, INK);
    proof {
        lemma_inside(len, st, outer, a1);
        lemma_inside(len, st, outer, a2);
        lemma_inside(len, st, outer, a3);
        lemma_inside(len, st, outer, a4);
        lemma_inside(len, st, outer, a5);
        lemma_inside(len, st, outer, a6);
        lemma_inside(len, st, outer, a7);
    }
    let ghost s1 = push_if(s0, m & 0x01 != 0, a1);
    let ghost s2 = push_if(s1, m & 0x02 != 0, a2);
    let ghost s3 = push_if(s2, m & 0x04 != 0, a3);
    let ghost s4 = push_if(s3, m & 0x08 != 0, a4);
    let ghost s5 = push_if(s4, m & 0x10 != 0, a5);
    let ghost s6 = push_if(s5, m & 0x20 != 0, a6);
    stroke(frame, stride, m & 0x01 != 0, x, y, w, t, Ghost(f0), Ghost(s0));
    proof { lemma_paint_all_len(f0, st, s1); }
    stroke(frame, stride, m & 0x02 != 0, x + w - t, y, t, h / 2, Ghost(f0), Ghost(s1));
    proof { lemma_paint_all_len(f0, st, s2); }
    stroke(frame, stride, m & 0x04 != 0, x + w - t, y + h / 2, t, h / 2, Ghost(f0), Ghost(s2));
    proof { lemma_paint_all_len(f0, st, s3); }
    stroke(frame, stride, m & 0x08 != 0, x, y + h - t, w, t, Ghost(f0), Ghost(s3));
    proof { lemma_paint_all_len(f0, st, s4); }
    stroke(frame, stride, m & 0x10 != 0, x, y + h / 2, t, h / 2, Ghost(f0), Ghost(s4));
    proof { lemma_paint_all_len(f0, st, s5); }
    stroke(frame, stride, m & 0x20 != 0, x, y, t, h / 2, Ghost(f0), Ghost(s5));
    proof { lemma_paint_all_len(f0, st, s6); }
    stroke(frame, stride, m & 0x40 != 0, x, y + h / 2 - t / 2, w, t, Ghost(f0), Ghost(s6));
}


/// The glyphs of `s` drawn from (`x`, `y`) in a font of `u`-pixel units, one
/// unit of gap between glyphs.
pub open spec fn text_areas(x: int, y: int, u: int, s: Seq<char>) -> Seq<Area>
    decreases s.len(),
{
    if s.len() == 0 {
        seq![]
    } else {
        text_areas(x, y, u, s.drop_last()) + glyph_areas(x + (s.len() - 1) * (5 * u), y, u, s.last())
    }
}

/// Width in pixels of `n` glyphs at unit `u` (4 units per glyph, 1 unit gap).
pub open spec fn text_width(n: int, u: int) -> int {
    n * (5 * u) - u
}

/// Width in pixels of `n` glyphs at `unit`.
pub fn text_w(n: usize, unit: usize) -> (r: usize)
    requires
        n >= 1,
        n * (5 * unit) <= usize::MAX,
    ensures
        r == text_width(n as int, unit as int),
{
    assert(n * (5 * unit) >= 5 * unit) by (nonlinear_arith)
        requires
            n >= 1,
    ;
    let five = 5 * unit;
    n * five - unit
}

/// Every character of `s` is a digit or `:`.
pub open spec fn drawable(s: Seq<char>) -> bool {
    forall|i: int| 0 <= i < s.len() ==> is_digit(#[trigger] s[i]) || s[i] == ':'
}

/// Draw the glyphs of `s` from (`x`, `y`) in a font of `unit`-pixel units.
pub fn text(frame: &mut [u8], stride: usize, x: usize, y: usize, unit: usize, s: &Vec<char>)
    requires
        drawable(s@),
        s@.len() > 0 ==> fits(old(frame)@.len() as int, stride as int,
            area(x as int, y as int, text_width(s@.len() as int, unit as int), 7 * unit, INK)),
    ensures
        final(frame)@ == paint_all(old(frame)@, stride as int, text_areas(x as int, y as int, unit as int, s@)),
{
    let ghost f0 = frame@;
    let ghost st = stride as int;
    let ghost n = s@.len() as int;
    let ghost u = unit as int;
    let ghost outer = area(x as int, y as int, text_width(n, u), 7 * unit, INK);
    let flen = frame.len();
    let mut i: usize = 0;
    assert(s@.subrange(0, 0) =~= seq![]);
    while i < s.len()
        invariant
            i <= s@.len(),
            n == s@.len(),
            u == unit,
            st == stride,
            flen == f0.len(),
            drawable(s@),
            n > 0 ==> fits(f0.len() as int, st, outer),
            outer == area(x as int, y as int, text_width(n, u), 7 * unit, INK),
            frame@ == paint_all(f0, st, text_areas(x as int, y as int, u, s@.subrange(0, i as int))),
        decreases s@.len() - i,
    {
        assert((i + 1) * (5 * u) <= n * (5 * u)) by (nonlinear_arith)
            requires
                i + 1 <= n,
                u >= 0,
        ;
        assert(i * (5 * u) + 5 * u == (i + 1) * (5 * u)) by (nonlinear_arith);
        assert(5 * u <= n * (5 * u)) by (nonlinear_arith)
            requires
                n >= 1,
                u >= 0,
        ;
        assert(unit > 0 ==> (x + text_width(n, u)) * 4 <= flen);
        assert(i * (5 * u) + 4 * u <= text_width(n, u));
        assert(unit == 0 ==> i * (5 * u) == 0) by (nonlinear_arith)
            requires
                u == unit,
        ;
        assert(x + i * (5 * unit) <= usize::MAX);
        let gx = x + i * (5 * unit);
        let ghost g = area(gx as int, y as int, 4 * unit, 7 * unit, INK);
        proof {
            lemma_inside(f0.len() as int, st, outer, g);
            lemma_paint_all_len(f0, st, text_areas(x as int, y as int, u, s@.subrange(0, i as int)));
        }
        glyph(frame, stride, gx, y, unit, s[i]);
        proof {
            let pre = s@.subrange(0, i as int);
            let post = s@.subrange(0, i + 1);
            assert(post.drop_last() =~= pre);
            assert(post.last() == s@[i as int]);
            lemma_paint_concat(f0, st, text_areas(x as int, y as int, u, pre),
                glyph_areas(gx as int, y as int, u, s@[i as int]));
        }
        i = i + 1;
    }
    assert(s@.subrange(0, s@.len() as int) =~= s@);
}


/// The timecode of frame `n` at `fps`: minutes (modulo 100), seconds and
/// frame within the second, each on two digits at least.
pub open spec fn timecode(n: nat, fps: nat) -> Seq<char> {
    zero_padded(n / fps / 60 % 100, 2) + seq![':'] + zero_padded(n / fps % 60, 2) + seq![':']
        + zero_padded(n % fps, 2)
}

/// The counter of frame `n`: its identifier (low 24 bits) on seven digits at least.
pub open spec fn counter(n: nat) -> Seq<char> {
    zero_padded(n % 16777216, 7)
}

/// Width of the box behind the overlay: the timecode line and its padding.
pub open spec fn box_width(n: nat, fps: nat) -> int {
    text_width(timecode(n, fps).len() as int, 16) + 48
}

/// The overlay fits a `w`x`h` frame, box and band margins included.
pub open spec fn overlay_fits(w: int, h: int, n: nat, fps: nat) -> bool {
    box_width(n, fps) <= w && BOX_H + 2 * MARGIN <= h
}

/// What the overlay paints: the box, centred, then the timecode in large
/// glyphs and, centred below it, the counter in small ones.
pub open spec fn overlay_areas(w: int, h: int, n: nat, fps: nat) -> Seq<Area> {
    let bw = box_width(n, fps);
    let x0 = (w - bw) / 2;
    let y0 = (h - BOX_H) / 2;
    let id = counter(n);
    seq![area(x0, y0, bw, BOX_H as int, PAPER)]
        + text_areas(x0 + 24, y0 + 24, 16, timecode(n, fps))
        + text_areas(x0 + (bw - text_width(id.len() as int, 8)) / 2, y0 + 152, 8, id)
}

proof fn lemma_padded_bounds(v: nat, width: nat, k: nat)
    requires
        v < pow10(k),
        k >= 1,
    ensures
        zero_padded(v, width).len() >= width,
        zero_padded(v, width).len() <= if k >= width { k } else { width },
        zero_padded(v, width).len() >= 1,
        drawable(zero_padded(v, width)),
{
    lemma_zero_padded_shape(v, width);
    lemma_decimal_len_below(v, k);
}

/// Draw the overlay for frame `n` at `fps` into a `w`x`h` BGRA frame whose
/// lines are `stride` bytes apart. Does nothing when the frame is too small.
pub fn draw(frame: &mut [u8], stride: usize, w: usize, h: usize, n: u64, fps: u64)
    requires
        fps > 0,
        h > 0 ==> (h - 1) * stride + w * 4 <= old(frame)@.len(),
    ensures
        final(frame)@ == if overlay_fits(w as int, h as int, n as nat, fps as nat) {
            paint_all(old(frame)@, stride as int, overlay_areas(w as int, h as int, n as nat, fps as nat))
        } else {
            old(frame)@
        },
{
    let ghost f0 = frame@;
    let ghost st = stride as int;
    let big: usize = 16;
    let small: usize = 8;
    let pad: usize = 24;
    let mm = n / fps / 60 % 100;
    let ss = n / fps % 60;
    let ff = n % fps;
    let mut tc = String::new();
    push_zero_padded(&mut tc, mm, 2);
    push_char(&mut tc, ':');
    push_zero_padded(&mut tc, ss, 2);
    push_char(&mut tc, ':');
    push_zero_padded(&mut tc, ff, 2);
    let low = n & 0x00FF_FFFF;
    assert(low == n % 16777216) by (bit_vector)
        requires
            low == n & 0x00FF_FFFF,
    ;
    let mut id = String::new();
    push_zero_padded(&mut id, low, 7);
    let tcc = chars_of(tc.as_str());
    let idc = chars_of(id.as_str());
    proof {
        reveal_with_fuel(pow10, 21);
        assert(pow10(2) == 100);
        assert(pow10(8) == 100000000);
        assert(pow10(20) == 100000000000000000000);
        lemma_padded_bounds(mm as nat, 2, 2);
        lemma_padded_bounds(ss as nat, 2, 2);
        lemma_padded_bounds(ff as nat, 2, 20);
        lemma_padded_bounds(low as nat, 7, 8);
        assert(tcc@ =~= timecode(n as nat, fps as nat));
        assert(idc@ =~= counter(n as nat));
        let t = timecode(n as nat, fps as nat);
        assert forall|i: int| 0 <= i < t.len() implies is_digit(#[trigger] t[i]) || t[i] == ':' by {
            let a = zero_padded(mm as nat, 2);
            let b = zero_padded(ss as nat, 2);
            let c = zero_padded(ff as nat, 2);
            if i < 2 {
                assert(t[i] == a[i]);
            } else if i == 2 {
            } else if i < 5 {
                assert(t[i] == b[i - 3]);
            } else if i == 5 {
            } else {
                assert(t[i] == c[i - 6]);
            }
        }
    }
    assert(8 <= tcc.len() <= 26);
    assert(7 <= idc.len() <= 8);
    let box_w = text_w(tcc.len(), big) + 2 * pad;
    let box_h = 7 * big + 2 * small + 7 * small + 2 * pad;
    let margin = 2 * CELL + BAND_H;
    if box_w > w || box_h + 2 * margin > h {
        return;
    }
    let x0 = (w - box_w) / 2;
    let y0 = (h - box_h) / 2;
    let ghost bx = area(x0 as int, y0 as int, box_w as int, box_h as int, PAPER);
    assert((y0 + box_h - 1) * stride <= (h - 1) * stride) by (nonlinear_arith)
        requires
            y0 + box_h <= h,
    ;
    assert(fits(f0.len() as int, st, bx));
    rect(frame, stride, x0, y0, box_w, box_h, PAPER);
    let ghost f1 = frame@;
    proof {
        lemma_paint_push(f0, st, seq![], bx);
        assert(seq![].push(bx) =~= seq![bx]);
        lemma_paint_all_len(f0, st, seq![bx]);
    }
    let tw = text_w(idc.len(), small);
    let ghost t1 = area((x0 + pad) as int, (y0 + pad) as int, text_width(tcc@.len() as int, 16), 112int, INK);
    let ghost t2 = area((x0 + (box_w - tw) / 2) as int, (y0 + 152) as int, tw as int, 56int, INK);
    proof {
        lemma_inside(f0.len() as int, st, bx, t1);
        lemma_inside(f0.len() as int, st, bx, t2);
    }
    text(frame, stride, x0 + pad, y0 + pad, big, &tcc);
    let ghost a1 = text_areas((x0 + pad) as int, (y0 + pad) as int, 16, tcc@);
    proof {
        lemma_paint_concat(f0, st, seq![bx], a1);
        lemma_paint_all_len(f0, st, seq![bx] + a1);
    }
    text(frame, stride, x0 + (box_w - tw) / 2, y0 + pad + 7 * big + 2 * small, small, &idc);
    proof {
        let a2 = text_areas((x0 + (box_w - tw) / 2) as int, (y0 + 152) as int, 8, idc@);
        lemma_paint_concat(f0, st, seq![bx] + a1, a2);
        assert(seq![bx] + a1 + a2 == overlay_areas(w as int, h as int, n as nat, fps as nat));
    }
}


/// `a` lies within columns `x0..x1` and lines `y0..y1`.
pub open spec fn area_within(a: Area, x0: int, x1: int, y0: int, y1: int) -> bool {
    x0 <= a.x && 0 <= a.w && a.x + a.w <= x1 && y0 <= a.y && 0 <= a.h && a.y + a.h <= y1
}

/// Every area of `areas` lies within columns `x0..x1` and lines `y0..y1`.
pub open spec fn all_within(areas: Seq<Area>, x0: int, x1: int, y0: int, y1: int) -> bool {
    forall|k: int| 0 <= k < areas.len() ==> area_within(#[trigger] areas[k], x0, x1, y0, y1)
}

proof fn lemma_push_if_within(s: Seq<Area>, on: bool, a: Area, x0: int, x1: int, y0: int, y1: int)
    requires
        all_within(s, x0, x1, y0, y1),
        area_within(a, x0, x1, y0, y1),
    ensures
        all_within(push_if(s, on, a), x0, x1, y0, y1),
{
    if on {
        let t = s.push(a);
        assert forall|k: int| 0 <= k < t.len() implies area_within(#[trigger] t[k], x0, x1, y0, y1) by {
            if k < s.len() {
                assert(t[k] == s[k]);
            }
        }
    }
}

proof fn lemma_concat_within(a: Seq<Area>, b: Seq<Area>, x0: int, x1: int, y0: int, y1: int)
    requires
        all_within(a, x0, x1, y0, y1),
        all_within(b, x0, x1, y0, y1),
    ensures
        all_within(a + b, x0, x1, y0, y1),
{
    let t = a + b;
    assert forall|k: int| 0 <= k < t.len() implies area_within(#[trigger] t[k], x0, x1, y0, y1) by {
        if k < a.len() {
            assert(t[k] == a[k]);
        } else {
            assert(t[k] == b[k - a.len()]);
        }
    }
}

proof fn lemma_widen_within(s: Seq<Area>, x0: int, x1: int, y0: int, y1: int, a0: int, a1: int, b0: int, b1: int)
    requires
        all_within(s, x0, x1, y0, y1),
        a0 <= x0,
        x1 <= a1,
        b0 <= y0,
        y1 <= b1,
    ensures
        all_within(s, a0, a1, b0, b1),
{
    assert forall|k: int| 0 <= k < s.len() implies area_within(#[trigger] s[k], a0, a1, b0, b1) by {
        assert(area_within(s[k], x0, x1, y0, y1));
    }
}

/// The strokes of a glyph stay in its cell: 4 units wide, 7 tall.
pub proof fn lemma_glyph_within(x: int, y: int, u: int, ch: char)
    requires
        u >= 0,
    ensures
        all_within(glyph_areas(x, y, u, ch), x, x + 4 * u, y, y + 7 * u),
{
    let w = 4 * u;
    let h = 7 * u;
    let t = u;
    if ch == ':' {
        let g = glyph_areas(x, y, u, ch);
        assert(area_within(g[0], x, x + w, y, y + h));
        assert(area_within(g[1], x, x + w, y, y + h));
    } else {
        let m = segment_mask(digit_value(ch));
        let s0: Seq<Area> = seq![];
        let s1 = push_if(s0, m & 0x01 != 0, area(x, y, w, t, INK));
        let s2 = push_if(s1, m & 0x02 != 0, area(x + w - t, y, t, h / 2, INK));
        let s3 = push_if(s2, m & 0x04 != 0, area(x + w - t, y + h / 2, t, h / 2, INK));
        let s4 = push_if(s3, m & 0x08 != 0, area(x, y + h - t, w, t, INK));
        let s5 = push_if(s4, m & 0x10 != 0, area(x, y + h / 2, t, h / 2, INK));
        let s6 = push_if(s5, m & 0x20 != 0, area(x, y, t, h / 2, INK));
        lemma_push_if_within(s0, m & 0x01 != 0, area(x, y, w, t, INK), x, x + w, y, y + h);
        lemma_push_if_within(s1, m & 0x02 != 0, area(x + w - t, y, t, h / 2, INK), x, x + w, y, y + h);
        lemma_push_if_within(s2, m & 0x04 != 0, area(x + w - t, y + h / 2, t, h / 2, INK), x, x + w, y, y + h);
        lemma_push_if_within(s3, m & 0x08 != 0, area(x, y + h - t, w, t, INK), x, x + w, y, y + h);
        lemma_push_if_within(s4, m & 0x10 != 0, area(x, y + h / 2, t, h / 2, INK), x, x + w, y, y + h);
        lemma_push_if_within(s5, m & 0x20 != 0, area(x, y, t, h / 2, INK), x, x + w, y, y + h);
        lemma_push_if_within(s6, m & 0x40 != 0, area(x, y + h / 2 - t / 2, w, t, INK), x, x + w, y, y + h);
    }
}

/// The glyphs of a text stay in its box: as wide as [`text_width`] says,
/// 7 units tall.
pub proof fn lemma_text_within(x: int, y: int, u: int, s: Seq<char>)
    requires
        u >= 0,
        s.len() > 0,
    ensures
        all_within(text_areas(x, y, u, s), x, x + text_width(s.len() as int, u), y, y + 7 * u),
    decreases s.len(),
{
    let n = s.len() as int;
    let gx = x + (n - 1) * (5 * u);
    let x1 = x + text_width(n, u);
    assert(gx + 4 * u == x1) by (nonlinear_arith)
        requires
            gx == x + (n - 1) * (5 * u),
            x1 == x + (n * (5 * u) - u),
    ;
    assert(gx >= x) by (nonlinear_arith)
        requires
            gx == x + (n - 1) * (5 * u),
            n >= 1,
            u >= 0,
    ;
    lemma_glyph_within(gx, y, u, s.last());
    lemma_widen_within(glyph_areas(gx, y, u, s.last()), gx, gx + 4 * u, y, y + 7 * u, x, x1, y, y + 7 * u);
    let head = text_areas(x, y, u, s.drop_last());
    if n > 1 {
        lemma_text_within(x, y, u, s.drop_last());
        assert(text_width(n - 1, u) <= text_width(n, u)) by (nonlinear_arith)
            requires
                u >= 0,
        ;
        lemma_widen_within(head, x, x + text_width(n - 1, u), y, y + 7 * u, x, x1, y, y + 7 * u);
    } else {
        assert(s.drop_last().len() == 0);
        assert(head =~= seq![]);
    }
    lemma_concat_within(head, glyph_areas(gx, y, u, s.last()), x, x1, y, y + 7 * u);
}

/// Every area the overlay paints lies in its box, which lies in the frame.
pub proof fn lemma_overlay_within(w: int, h: int, n: nat, fps: nat)
    requires
        overlay_fits(w, h, n, fps),
        fps > 0,
    ensures
        all_within(overlay_areas(w, h, n, fps), 0, w, (h - BOX_H) / 2, (h - BOX_H) / 2 + BOX_H),
{
    reveal_with_fuel(pow10, 21);
    assert(pow10(2) == 100);
    assert(pow10(8) == 100000000);
    assert(pow10(20) == 100000000000000000000);
    let mm = n / fps / 60 % 100;
    let ss = n / fps % 60;
    let ff = n % fps;
    lemma_padded_bounds(mm, 2, 2);
    lemma_padded_bounds(ss, 2, 2);
    lemma_zero_padded_shape(ff, 2);
    lemma_padded_bounds((n % 16777216) as nat, 7, 8);
    let tc = timecode(n, fps);
    let id = counter(n);
    let bw = box_width(n, fps);
    let x0 = (w - bw) / 2;
    let y0 = (h - BOX_H) / 2;
    let l1 = tc.len() as int;
    let l2 = id.len() as int;
    assert(l1 >= 8);
    assert(7 <= l2 <= 8);
    let tw2 = text_width(l2, 8);
    assert(tw2 == l2 * 40 - 8);
    assert(bw == l1 * 80 + 32);
    assert(tw2 <= bw);
    let bx = seq![area(x0, y0, bw, BOX_H as int, PAPER)];
    assert(all_within(bx, 0, w, y0, y0 + BOX_H)) by {
        assert(area_within(bx[0], 0, w, y0, y0 + BOX_H));
    }
    let t1 = text_areas(x0 + 24, y0 + 24, 16, tc);
    lemma_text_within(x0 + 24, y0 + 24, 16, tc);
    lemma_widen_within(t1, x0 + 24, x0 + 24 + text_width(l1, 16), y0 + 24, y0 + 24 + 7 * 16, 0, w, y0, y0 + BOX_H);
    let xx = x0 + (bw - tw2) / 2;
    let t2 = text_areas(xx, y0 + 152, 8, id);
    lemma_text_within(xx, y0 + 152, 8, id);
    lemma_widen_within(t2, xx, xx + tw2, y0 + 152, y0 + 152 + 7 * 8, 0, w, y0, y0 + BOX_H);
    lemma_concat_within(bx, t1, 0, w, y0, y0 + BOX_H);
    lemma_concat_within(bx + t1, t2, 0, w, y0, y0 + BOX_H);
}

proof fn lemma_lines_outside(f: Seq<u8>, stride: int, width: int, a: Area, rows: nat, lo: int, hi: int, i: int)
    requires
        rows <= a.h,
        area_within(a, 0, width, lo, hi),
        width * 4 <= stride,
        0 <= i < f.len(),
        i < lo * stride || i >= hi * stride,
    ensures
        paint_lines(f, stride, a, rows)[i] == f[i],
    decreases rows,
{
    if rows > 0 {
        lemma_lines_outside(f, stride, width, a, (rows - 1) as nat, lo, hi, i);
        lemma_paint_lines_len(f, stride, a, (rows - 1) as nat);
        let r = a.y + rows - 1;
        assert(lo * stride <= r * stride) by (nonlinear_arith)
            requires
                lo <= r,
                stride >= 0,
        ;
        assert((r + 1) * stride <= hi * stride) by (nonlinear_arith)
            requires
                r + 1 <= hi,
                stride >= 0,
        ;
        assert(r * stride + stride == (r + 1) * stride) by (nonlinear_arith);
    }
}

/// Painting areas confined to lines `lo..hi` of a frame `width` pixels wide
/// leaves every byte outside those lines as it was.
pub proof fn lemma_paint_outside_lines(
    f: Seq<u8>,
    stride: int,
    width: int,
    areas: Seq<Area>,
    lo: int,
    hi: int,
    i: int,
)
    requires
        width * 4 <= stride,
        all_within(areas, 0, width, lo, hi),
        0 <= i < f.len(),
        i < lo * stride || i >= hi * stride,
    ensures
        paint_all(f, stride, areas)[i] == f[i],
    decreases areas.len(),
{
    if areas.len() > 0 {
        let init = areas.drop_last();
        assert forall|k: int| 0 <= k < init.len() implies area_within(#[trigger] init[k], 0, width, lo, hi) by {
            assert(init[k] == areas[k]);
        }
        lemma_paint_outside_lines(f, stride, width, init, lo, hi, i);
        lemma_paint_all_len(f, stride, init);
        let g = paint_all(f, stride, init);
        let a = areas.last();
        assert(area_within(areas[areas.len() - 1], 0, width, lo, hi));
        if a.h > 0 {
            lemma_lines_outside(g, stride, width, a, a.h as nat, lo, hi, i);
        }
    }
}

} // verus!
