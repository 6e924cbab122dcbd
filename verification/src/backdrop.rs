//! The generator's background: blocky pseudo-random colours from a fixed
//! seed, scrolled horizontally, so that an encoder sees real motion that is
//! the same from one run to the next for a given seed.

use vstd::prelude::*;
use vstd::arithmetic::div_mod::lemma_fundamental_div_mod_converse;

verus! {

/// Side of a colour block, in pixels.
pub const BLOCK: usize = 16;
/// Horizontal scroll per frame, in pixels.
pub const SCROLL_PX: usize = 8;
/// The scroll wraps after this many pixels; the tile is this much wider
/// than the frame.
pub const WRAP_PX: usize = 1024;

/// One step of the xorshift64 generator (shifts 13, 7, 17).
pub open spec fn xorshift(s: u64) -> u64 {
    let a = s ^ (s << 13u64);
    let b = a ^ (a >> 7u64);
    b ^ (b << 17u64)
}

/// The generator's state after `k` steps from `seed` (forced odd).
pub open spec fn xs_state(seed: u64, k: nat) -> u64
    decreases k,
{
    if k == 0 { seed | 1 } else { xorshift(xs_state(seed, (k - 1) as nat)) }
}

/// Byte `c` of the BGRA colour drawn from generator output `r`: its three
/// low bytes, then opaque.
pub open spec fn color_byte(r: u64, c: int) -> u8 {
    if c == 0 {
        r as u8
    } else if c == 1 {
        (r >> 8u64) as u8
    } else if c == 2 {
        (r >> 16u64) as u8
    } else {
        255
    }
}

/// Colour blocks across a tile `tile_w` pixels wide (the last one may be cut).
pub open spec fn blocks_across(tile_w: int) -> int {
    (tile_w + 15) / 16
}

/// Byte `o` of the tile for `seed`, `tile_w` pixels wide: the pixel it
/// belongs to takes the colour of its 16x16 block, blocks numbered row by
/// row, block `i` coloured by the generator's output number `i + 1`.
pub open spec fn tile_byte(seed: u64, tile_w: int, o: int) -> u8 {
    let y = o / (tile_w * 4);
    let x = (o % (tile_w * 4)) / 4;
    color_byte(xs_state(seed, ((y / 16) * blocks_across(tile_w) + x / 16 + 1) as nat), o % 4)
}

/// The scroll offset of frame `n`, in pixels.
pub open spec fn scroll_offset(n: u64) -> int {
    ((n as usize) * 8) % 1024
}

/// The whole lines of `w` BGRA pixels in `len` bytes.
pub open spec fn whole_lines(len: int, w: int) -> int {
    len / (w * 4)
}

/// `f`, a frame `w` pixels wide, with the background `tile` (`tile_w`
/// pixels wide) of frame `n` copied in: each whole line of the frame takes
/// the tile's line from the frame's scroll offset; bytes past the last whole
/// line are left alone.
pub open spec fn composed(tile: Seq<u8>, tile_w: int, w: int, n: u64, f: Seq<u8>) -> Seq<u8> {
    Seq::new(f.len(), |o: int| if o < whole_lines(f.len() as int, w) * (w * 4) {
        tile[(o / (w * 4)) * (tile_w * 4) + scroll_offset(n) * 4 + o % (w * 4)]
    } else {
        f[o]
    })
}

/// A pre-rendered background, wider than the frame so it can scroll.
pub struct Background {
    tile: Vec<u8>,
    tile_w: usize,
}

proof fn lemma_tile_position(tw: int, y: int, x: int, c: int)
    requires
        tw > 0,
        0 <= y,
        0 <= x < tw,
        0 <= c < 4,
    ensures
        ((y * tw + x) * 4 + c) / (tw * 4) == y,
        (((y * tw + x) * 4 + c) % (tw * 4)) / 4 == x,
        ((y * tw + x) * 4 + c) % 4 == c,
{
    let o = (y * tw + x) * 4 + c;
    assert(o == y * (tw * 4) + (x * 4 + c)) by (nonlinear_arith)
        requires
            o == (y * tw + x) * 4 + c,
    ;
    lemma_fundamental_div_mod_converse(o, tw * 4, y, x * 4 + c);
    lemma_fundamental_div_mod_converse(x * 4 + c, 4, x, c);
    lemma_fundamental_div_mod_converse(o, 4, y * tw + x, c);
}

impl Background {
    /// The tile's bytes, BGRA, line after line.
    pub closed spec fn pixels(&self) -> Seq<u8> {
        self.tile@
    }

    /// The tile's width in pixels.
    pub closed spec fn tile_width(&self) -> nat {
        self.tile_w as nat
    }

    /// Render the background of a `w`x`h` frame for `seed`.
    pub fn new(w: usize, h: usize, seed: u64) -> (r: Background)
        requires
            w + 1024 <= usize::MAX,
            (w + 1024) * h * 4 <= usize::MAX,
        ensures
            r.tile_width() == w + 1024,
            r.pixels().len() == (w + 1024) * h * 4,
            forall|o: int| 0 <= o < r.pixels().len() ==> #[trigger] r.pixels()[o]
                == tile_byte(seed, (w + 1024) as int, o),
    {
        let tile_w = w + WRAP_PX;
        let blocks_x = tile_w / 16 + if tile_w % 16 != 0 { 1 } else { 0 };
        let blocks_y = h / 16 + if h % 16 != 0 { 1 } else { 0 };
        assert(blocks_x == (tile_w + 15) / 16);
        assert(blocks_y == (h + 15) / 16);
        assert(blocks_x <= tile_w);
        assert(h > 0 ==> blocks_y <= h);
        assert(blocks_x * blocks_y <= tile_w * h) by (nonlinear_arith)
            requires
                blocks_x <= tile_w,
                h > 0 ==> blocks_y <= h,
                h == 0 ==> blocks_y == 0,
        ;
        assert(tile_w * h <= (w + 1024) * h * 4) by (nonlinear_arith)
            requires
                tile_w == w + 1024,
        ;
        let count = blocks_x * blocks_y;
        let mut s: u64 = seed | 1;
        let mut colors: Vec<u64> = Vec::new();
        while colors.len() < count
            invariant
                colors@.len() <= count,
                s == xs_state(seed, colors@.len() as nat),
                forall|i: int| 0 <= i < colors@.len() ==> #[trigger] colors@[i] == xs_state(seed, (i + 1) as nat),
            decreases count - colors@.len(),
        {
            let ghost k = colors@.len();
            s ^= s << 13;
            s ^= s >> 7;
            s ^= s << 17;
            assert(s == xs_state(seed, (k + 1) as nat));
            colors.push(s);
        }
        let mut tile: Vec<u8> = Vec::new();
        let mut y: usize = 0;
        while y < h
            invariant
                y <= h,
                tile_w == w + 1024,
                blocks_x == blocks_across(tile_w as int),
                blocks_y == (h + 15) / 16,
                count == blocks_x * blocks_y,
                colors@.len() == count,
                forall|i: int| 0 <= i < colors@.len() ==> #[trigger] colors@[i] == xs_state(seed, (i + 1) as nat),
                tile@.len() == y * tile_w * 4,
                forall|o: int| 0 <= o < tile@.len() ==> #[trigger] tile@[o] == tile_byte(seed, tile_w as int, o),
            decreases h - y,
        {
            let mut x: usize = 0;
            while x < tile_w
                invariant
                    y < h,
                    x <= tile_w,
                    tile_w == w + 1024,
                    blocks_x == blocks_across(tile_w as int),
                    blocks_y == (h + 15) / 16,
                    count == blocks_x * blocks_y,
                    colors@.len() == count,
                    forall|i: int| 0 <= i < colors@.len() ==> #[trigger] colors@[i] == xs_state(seed, (i + 1) as nat),
                    tile@.len() == (y * tile_w + x) * 4,
                    forall|o: int| 0 <= o < tile@.len() ==> #[trigger] tile@[o] == tile_byte(seed, tile_w as int, o),
                decreases tile_w - x,
            {
                let ghost yy = (y / 16) as int;
                let ghost xx = (x / 16) as int;
                assert(yy <= blocks_y - 1);
                assert(xx <= blocks_x - 1);
                assert(yy * blocks_x + xx <= blocks_x * blocks_y - 1) by (nonlinear_arith)
                    requires
                        yy <= blocks_y - 1,
                        xx <= blocks_x - 1,
                        0 <= yy,
                        0 <= xx,
                ;
                let i = (y / 16) * blocks_x + x / 16;
                let r = colors[i];
                let ghost base = tile@.len() as int;
                let ghost before = tile@;
                proof {
                    lemma_tile_position(tile_w as int, y as int, x as int, 0);
                    lemma_tile_position(tile_w as int, y as int, x as int, 1);
                    lemma_tile_position(tile_w as int, y as int, x as int, 2);
                    lemma_tile_position(tile_w as int, y as int, x as int, 3);
                }
                tile.push(#[verifier::truncate] (r as u8));
                tile.push(#[verifier::truncate] ((r >> 8) as u8));
                tile.push(#[verifier::truncate] ((r >> 16) as u8));
                tile.push(255);
                assert forall|o: int| 0 <= o < tile@.len() implies #[trigger] tile@[o]
                    == tile_byte(seed, tile_w as int, o) by {
                    if o >= base {
                        assert(o == base || o == base + 1 || o == base + 2 || o == base + 3);
                    } else {
                        assert(tile@[o] == before[o]);
                    }
                }
                x = x + 1;
            }
            assert((y * tile_w + tile_w) * 4 == (y + 1) * tile_w * 4) by (nonlinear_arith);
            y = y + 1;
        }
        assert(h * tile_w * 4 == (w + 1024) * h * 4) by (nonlinear_arith)
            requires
                tile_w == w + 1024,
        ;
        Background { tile, tile_w }
    }

    /// Copy the background into a frame `w` pixels wide for frame `n`: each
    /// whole line of the frame takes the tile's line, scrolled by the frame's
    /// offset; bytes past the last whole line are left alone.
    pub fn compose(&self, n: u64, frame: &mut [u8], w: usize)
        requires
            w > 0,
            w * 4 <= usize::MAX,
            w + 1024 <= self.tile_width(),
            (n as usize) * 8 <= usize::MAX,
            whole_lines(old(frame)@.len() as int, w as int) * (self.tile_width() * 4) <= self.pixels().len(),
        ensures
            final(frame)@ == composed(self.pixels(), self.tile_width() as int, w as int, n, old(frame)@),
    {
        let ghost f0 = frame@;
        let ghost tw = self.tile_w as int;
        let ghost w4i = (w * 4) as int;
        let w4 = w * 4;
        let off = (n as usize * SCROLL_PX) % WRAP_PX;
        let len = frame.len();
        let tlen = self.tile.len();
        let rows = len / w4;
        assert(rows * w4 <= len) by (nonlinear_arith)
            requires
                rows == len / w4,
                w4 > 0,
        ;
        let mut y: usize = 0;
        while y < rows
            invariant
                y <= rows,
                rows == len / w4,
                rows * w4 <= len,
                len == f0.len(),
                w4 == w * 4,
                w4 > 0,
                w4i == w4,
                off == scroll_offset(n),
                off < 1024,
                w + 1024 <= tw,
                tw == self.tile_w,
                rows * (tw * 4) <= self.tile@.len(),
                tlen == self.tile@.len(),
                frame@.len() == f0.len(),
                forall|o: int| 0 <= o < f0.len() ==> #[trigger] frame@[o] == if o < y * w4 {
                    self.tile@[(o / w4i) * (tw * 4) + off * 4 + o % w4i]
                } else {
                    f0[o]
                },
            decreases rows - y,
        {
            assert((y + 1) * w4 <= rows * w4) by (nonlinear_arith)
                requires
                    y + 1 <= rows,
                    w4 > 0,
            ;
            assert((y + 1) * (tw * 4) <= rows * (tw * 4)) by (nonlinear_arith)
                requires
                    y + 1 <= rows,
                    tw > 0,
            ;
            assert((y * tw + off) * 4 + w4 <= (y + 1) * (tw * 4)) by (nonlinear_arith)
                requires
                    off + w <= tw,
                    w4 == w * 4,
            ;
            assert(y * w4 + w4 == (y + 1) * w4) by (nonlinear_arith);
            let start = (y * self.tile_w + off) * 4;
            let base = y * w4;
            let mut j: usize = 0;
            while j < w4
                invariant
                    j <= w4,
                    y < rows,
                    base == y * w4,
                    base + w4 <= len,
                    start == (y * tw + off) * 4,
                    start + w4 <= self.tile@.len(),
                    tlen == self.tile@.len(),
                    len == f0.len(),
                    w4 > 0,
                    w4i == w4,
                    tw == self.tile_w,
                    off == scroll_offset(n),
                    frame@.len() == f0.len(),
                    forall|o: int| 0 <= o < f0.len() ==> #[trigger] frame@[o] == if o < base + j {
                        self.tile@[(o / w4i) * (tw * 4) + off * 4 + o % w4i]
                    } else {
                        f0[o]
                    },
                decreases w4 - j,
            {
                proof {
                    lemma_fundamental_div_mod_converse((base + j) as int, w4 as int, y as int, j as int);
                    assert(y * (tw * 4) + off * 4 + j == start + j) by (nonlinear_arith)
                        requires
                            start == (y * tw + off) * 4,
                    ;
                }
                let ghost before = frame@;
                frame[base + j] = self.tile[start + j];
                assert forall|o: int| 0 <= o < f0.len() implies #[trigger] frame@[o] == if o < base + j + 1 {
                    self.tile@[(o / w4i) * (tw * 4) + off * 4 + o % w4i]
                } else {
                    f0[o]
                } by {
                    if o != base + j {
                        assert(frame@[o] == before[o]);
                    }
                }
                j = j + 1;
            }
            y = y + 1;
        }
        assert(frame@ =~= composed(self.pixels(), self.tile_width() as int, w as int, n, f0));
    }
}


/// The background is the same from one run to the next: two rendered for
/// the same size and seed hold the same bytes.
pub proof fn lemma_same_seed_same_background(a: Background, b: Background, w: usize, h: usize, seed: u64)
    requires
        a.tile_width() == w + 1024,
        b.tile_width() == w + 1024,
        a.pixels().len() == (w + 1024) * h * 4,
        b.pixels().len() == (w + 1024) * h * 4,
        forall|o: int| 0 <= o < a.pixels().len() ==> #[trigger] a.pixels()[o] == tile_byte(seed, (w + 1024) as int, o),
        forall|o: int| 0 <= o < b.pixels().len() ==> #[trigger] b.pixels()[o] == tile_byte(seed, (w + 1024) as int, o),
    ensures
        a.pixels() == b.pixels(),
{
    assert(a.pixels() =~= b.pixels());
}

} // verus!
