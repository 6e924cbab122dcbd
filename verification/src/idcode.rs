//! Frame identifier band, robust to video compression.
//!
//! A luma-only band of 32x32 px cells aligned on the 16x16 macroblock grid:
//! 2 rows of 18 cells. Each row starts with two reference cells (black /
//! white, swapped on the second row) that give an adaptive threshold; the 32
//! remaining cells carry a 24-bit counter and its CRC-8. Only the central
//! 16x16 of each cell is sampled, so deblocking at cell edges is ignored.

use vstd::prelude::*;

verus! {

pub const CELL: usize = 32;
pub const COLS: usize = 18;
pub const ROWS: usize = 2;
pub const BAND_W: usize = 576;
pub const BAND_H: usize = 64;
pub const ID_MASK: u32 = 0x00FF_FFFF;

pub const BLACK: u8 = 16;
pub const WHITE: u8 = 235;
pub const REFS: usize = 2;
pub const BITS_PER_ROW: usize = 16;
/// Minimum white - black luma gap for a band to be read at all.
pub const MIN_CONTRAST: u32 = 64;

/// Why a band could not be read.
#[derive(Debug, Clone, Copy, PartialEq, Eq)]
pub enum DecodeError {
    NoContrast,
    BadCrc,
}

/// Top-left corners of the two band copies: the first a cell in from the
/// top-left corner, the second as far towards the bottom-right corner as the
/// cell grid allows while keeping a cell of margin.
pub open spec fn band_origins_spec(width: int, height: int) -> (int, int, int, int) {
    (CELL as int, CELL as int,
     (width - BAND_W - CELL) / CELL as int * CELL as int,
     (height - BAND_H - CELL) / CELL as int * CELL as int)
}

/// Top-left corners of the two band copies for a `width`x`height` frame.
pub fn band_origins(width: usize, height: usize) -> (r: [(usize, usize); 2])
    requires
        width >= BAND_W + CELL,
        height >= BAND_H + CELL,
    ensures
        r[0] == (CELL, CELL),
        r[1].0 == band_origins_spec(width as int, height as int).2,
        r[1].1 == band_origins_spec(width as int, height as int).3,
        r[1].0 % 16 == 0 && r[1].1 % 16 == 0,
        r[1].0 + BAND_W <= width && r[1].1 + BAND_H <= height,
{
    let x = (width - BAND_W - CELL) / CELL * CELL;
    let y = (height - BAND_H - CELL) / CELL * CELL;
    let ghost a: int = (width - BAND_W - CELL) as int;
    let ghost b: int = (height - BAND_H - CELL) as int;
    assert(x as int == a / 32 * 32);
    assert(y as int == b / 32 * 32);
    assert(x % 16 == 0 && x <= a) by (nonlinear_arith)
        requires x as int == a / 32 * 32, a >= 0;
    assert(y % 16 == 0 && y <= b) by (nonlinear_arith)
        requires y as int == b / 32 * 32, b >= 0;
    [(CELL, CELL), (x, y)]
}

/// One bit step of the CRC-8 register (polynomial 0x07).
pub open spec fn crc_shift(c: u8) -> u8 {
    if c & 0x80u8 != 0 { ((c << 1u8) ^ 0x07u8) as u8 } else { (c << 1u8) as u8 }
}

/// `k` bit steps of the CRC register.
pub open spec fn crc_rounds(c: u8, k: nat) -> u8
    decreases k,
{
    if k == 0 { c } else { crc_shift(crc_rounds(c, (k - 1) as nat)) }
}

/// CRC-8 (polynomial 0x07, initial value 0, no reflection, no final xor).
pub open spec fn crc8_spec(s: Seq<u8>) -> u8
    decreases s.len(),
{
    if s.len() == 0 { 0 } else { crc_rounds(crc8_spec(s.drop_last()) ^ s.last(), 8) }
}

/// The register stays clear when it is clear.
proof fn lemma_crc_rounds_zero(k: nat)
    ensures
        crc_rounds(0, k) == 0,
    decreases k,
{
    if k > 0 {
        lemma_crc_rounds_zero((k - 1) as nat);
        assert(crc_shift(0u8) == 0u8) by (bit_vector);
    }
}

/// A message followed by its own CRC has residue 0: running the CRC over
/// `s` and then the byte `crc8(s)` leaves the register clear.
pub proof fn lemma_crc_residue_zero(s: Seq<u8>)
    ensures
        crc8_spec(s.push(crc8_spec(s))) == 0,
{
    let t = s.push(crc8_spec(s));
    assert(t.drop_last() =~= s);
    let c = crc8_spec(s);
    assert(c ^ c == 0u8) by (bit_vector);
    lemma_crc_rounds_zero(8);
}

/// CRC-8, polynomial 0x07, init 0.
pub fn crc8(bytes: &[u8]) -> (r: u8)
    ensures
        r == crc8_spec(bytes@),
{
    let mut crc: u8 = 0;
    let mut i: usize = 0;
    while i < bytes.len()
        invariant
            i <= bytes@.len(),
            crc == crc8_spec(bytes@.subrange(0, i as int)),
        decreases bytes@.len() - i,
    {
        assert(bytes@.subrange(0, i + 1).drop_last() == bytes@.subrange(0, i as int));
        crc = crc ^ bytes[i];
        let ghost start = crc;
        let mut k: u32 = 0;
        while k < 8
            invariant
                k <= 8,
                crc == crc_rounds(start, k as nat),
            decreases 8 - k,
        {
            crc = if crc & 0x80 != 0 { (crc << 1u8) ^ 0x07 } else { crc << 1u8 };
            k = k + 1;
        }
        i = i + 1;
    }
    assert(bytes@.subrange(0, bytes@.len() as int) == bytes@);
    crc
}

/// The three low bytes of an identifier, little-endian.
pub open spec fn low_bytes(id: u32) -> Seq<u8> {
    seq![(id & 0xff) as u8, ((id >> 8u32) & 0xff) as u8, ((id >> 16u32) & 0xff) as u8]
}

/// The 32-bit payload for `id`: its low 24 bits, then their CRC-8.
pub open spec fn word_spec(id: u32) -> u32 {
    (id & ID_MASK) | ((crc8_spec(low_bytes(id & ID_MASK)) as u32) << 24u32)
}

pub fn word(id: u32) -> (w: u32)
    ensures
        w == word_spec(id),
{
    let id = id & ID_MASK;
    let mut bytes: Vec<u8> = Vec::new();
    bytes.push((id & 0xff) as u8);
    bytes.push(((id >> 8) & 0xff) as u8);
    bytes.push(((id >> 16) & 0xff) as u8);
    assert(bytes@ == low_bytes(id));
    let crc = crc8(bytes.as_slice());
    id | (crc as u32) << 24
}

/// Luma of the cell at (`row`, `col`) for payload `w`.
pub open spec fn cell_luma_spec(row: int, col: int, w: u32) -> u8 {
    if col < REFS {
        if (row + col) % 2 == 0 { BLACK } else { WHITE }
    } else if (w >> ((row * BITS_PER_ROW + col - REFS) as u32)) & 1 == 1 {
        WHITE
    } else {
        BLACK
    }
}

pub fn cell_luma(row: usize, col: usize, word: u32) -> (v: u8)
    requires
        row < ROWS,
        col < COLS,
    ensures
        v == cell_luma_spec(row as int, col as int, word),
{
    if col < REFS {
        if (row + col) % 2 == 0 { BLACK } else { WHITE }
    } else if word >> ((row * BITS_PER_ROW + col - REFS) as u32) & 1 == 1 {
        WHITE
    } else {
        BLACK
    }
}


/// Number of 128-byte spans (one cell row of 32 BGRA pixels each) in a band.
pub const SPANS: usize = 1152;

/// Line of the band (0..64) painted by span `k`.
pub open spec fn span_line(k: int) -> int {
    (k / 576) * 32 + k % 32
}

/// Cell column painted by span `k`.
pub open spec fn span_col(k: int) -> int {
    (k / 32) % 18
}

/// First byte of span `k` for a band drawn at (`x0`, `y0`) with `stride`.
pub open spec fn span_start(stride: int, x0: int, y0: int, k: int) -> int {
    (y0 + span_line(k)) * stride + (x0 + span_col(k) * 32) * 4
}

/// Byte `j` of a run of opaque grey BGRA pixels of luma `v`.
pub open spec fn pixel_byte(v: u8, j: int) -> u8 {
    if j % 4 < 3 { v } else { 255 }
}

/// `f` with its `m` bytes from `start` painted as grey pixels of luma `v`.
pub open spec fn paint_span(f: Seq<u8>, start: int, m: int, v: u8) -> Seq<u8> {
    Seq::new(f.len(), |i: int| if start <= i < start + m { pixel_byte(v, i - start) } else { f[i] })
}

/// `f` once the first `k` spans of the band for payload `w` are painted,
/// cell by cell, each cell top to bottom.
pub open spec fn paint_band(f: Seq<u8>, stride: int, x0: int, y0: int, w: u32, k: nat) -> Seq<u8>
    decreases k,
{
    if k == 0 {
        f
    } else {
        let j = k - 1;
        paint_span(
            paint_band(f, stride, x0, y0, w, j as nat),
            span_start(stride, x0, y0, j),
            128,
            cell_luma_spec(j / 576, span_col(j), w),
        )
    }
}

/// Bytes a band drawn at (`x0`, `y0`) reaches: its last line ends there.
pub open spec fn band_extent(stride: int, x0: int, y0: int) -> int {
    (y0 + 63) * stride + (x0 + 576) * 4
}

proof fn lemma_span_in_band(stride: int, x0: int, y0: int, k: int)
    requires
        0 <= k < 1152,
        stride >= 0,
        x0 >= 0,
        y0 >= 0,
    ensures
        0 <= span_start(stride, x0, y0, k),
        span_start(stride, x0, y0, k) + 128 <= band_extent(stride, x0, y0),
        0 <= span_line(k) < 64,
        0 <= span_col(k) < 18,
{
    let l = span_line(k);
    let c = span_col(k);
    assert(0 <= l < 64);
    assert(0 <= c < 18);
    assert((y0 + l) * stride <= (y0 + 63) * stride) by (nonlinear_arith)
        requires 0 <= l < 64, stride >= 0;
    assert(0 <= (y0 + l) * stride) by (nonlinear_arith)
        requires 0 <= l, y0 >= 0, stride >= 0;
}

/// Draw the band for `id` into a BGRA frame at (`x0`, `y0`).
pub fn encode(frame: &mut [u8], stride: usize, x0: usize, y0: usize, id: u32)
    requires
        band_extent(stride as int, x0 as int, y0 as int) <= old(frame)@.len(),
        y0 + BAND_H <= usize::MAX,
    ensures
        final(frame)@ == paint_band(old(frame)@, stride as int, x0 as int, y0 as int, word_spec(id), 1152),
        final(frame)@.len() == old(frame)@.len(),
{
    let w = word(id);
    let ghost f0 = frame@;
    let flen = frame.len();
    let mut k: usize = 0;
    while k < SPANS
        invariant
            k <= 1152,
            band_extent(stride as int, x0 as int, y0 as int) <= f0.len(),
            y0 + BAND_H <= usize::MAX,
            flen == f0.len(),
            frame@.len() == f0.len(),
            frame@ == paint_band(f0, stride as int, x0 as int, y0 as int, w, k as nat),
        decreases 1152 - k,
    {
        proof { lemma_span_in_band(stride as int, x0 as int, y0 as int, k as int); }
        let row = k / 576;
        let col = (k / 32) % 18;
        let y = k % 32;
        assert(row * 32 + y == span_line(k as int));
        let v = cell_luma(row, col, w);
        let line = y0 + row * CELL + y;
        assert(line * stride <= (y0 + 63) * stride) by (nonlinear_arith)
            requires line <= y0 + 63;
        assert((y0 + 63) * stride + (x0 + 576) * 4 <= usize::MAX);
        assert((x0 + col * CELL) * 4 <= (x0 + 576) * 4);
        let start = line * stride + (x0 + col * CELL) * 4;
        assert(start == span_start(stride as int, x0 as int, y0 as int, k as int));
        let ghost before = frame@;
        let mut j: usize = 0;
        while j < 128
            invariant
                j <= 128,
                start + 128 <= f0.len(),
                frame@.len() == f0.len(),
                frame@ == paint_span(before, start as int, j as int, v),
            decreases 128 - j,
        {
            frame[start + j] = if j % 4 < 3 { v } else { 255 };
            j = j + 1;
            assert(frame@ =~= paint_span(before, start as int, j as int, v));
        }
        k = k + 1;
    }
}


/// Integer BT.709 luma of the BGRA pixel whose first byte is at `o`.
pub open spec fn px_luma(band: Seq<u8>, o: int) -> int {
    (band[o + 2] as int * 54 + band[o + 1] as int * 183 + band[o] as int * 19) / 256
}

/// Sum of the lumas of `m` consecutive pixels from byte `start`.
pub open spec fn run_luma(band: Seq<u8>, start: int, m: nat) -> int
    decreases m,
{
    if m == 0 { 0 } else { run_luma(band, start, (m - 1) as nat) + px_luma(band, start + 4 * (m - 1)) }
}

/// First byte of line `y` of the sampled 16x16 centre of cell (`row`, `col`).
pub open spec fn sample_start(stride: int, row: int, col: int, y: int) -> int {
    (row * 32 + 8 + y) * stride + (col * 32 + 8) * 4
}

/// Sum of the lumas of the first `m` lines of the sampled centre of a cell.
pub open spec fn cell_sum(band: Seq<u8>, stride: int, row: int, col: int, m: nat) -> int
    decreases m,
{
    if m == 0 {
        0
    } else {
        cell_sum(band, stride, row, col, (m - 1) as nat) + run_luma(band, sample_start(stride, row, col, m - 1), 16)
    }
}

/// Mean luma of the central 16x16 of cell (`row`, `col`).
pub open spec fn sample_spec(band: Seq<u8>, stride: int, row: int, col: int) -> int {
    cell_sum(band, stride, row, col, 16) / 256
}

/// Bytes the decoder reads for a band at offset 0: the end of the sampled
/// centre of the last cell.
pub open spec fn decode_extent(stride: int) -> int {
    55 * stride + 2272
}

proof fn lemma_px_luma_bound(band: Seq<u8>, o: int)
    requires
        0 <= o,
        o + 3 <= band.len(),
    ensures
        0 <= px_luma(band, o) <= 255,
{
    let a = band[o + 2] as int * 54 + band[o + 1] as int * 183 + band[o] as int * 19;
    assert(0 <= a <= 255 * 256);
}

/// Mean BT.709 luma of the central 16x16 of a cell, from BGRA pixels.
pub fn sample(band: &[u8], stride: usize, row: usize, col: usize) -> (r: u32)
    requires
        row < ROWS,
        col < COLS,
        decode_extent(stride as int) <= band@.len(),
    ensures
        r == sample_spec(band@, stride as int, row as int, col as int),
        r <= 255,
{
    let blen = band.len();
    let mut sum: u32 = 0;
    let mut y: usize = 0;
    while y < 16
        invariant
            row < ROWS,
            col < COLS,
            blen == band@.len(),
            decode_extent(stride as int) <= band@.len(),
            y <= 16,
            sum == cell_sum(band@, stride as int, row as int, col as int, y as nat),
            sum <= y * 16 * 255,
        decreases 16 - y,
    {
        let line = row * CELL + 8 + y;
        assert(line * stride <= 55 * stride) by (nonlinear_arith)
            requires line <= 55;
        let start = line * stride + (col * CELL + 8) * 4;
        assert(start == sample_start(stride as int, row as int, col as int, y as int));
        let ghost before = sum as int;
        let mut x: usize = 0;
        while x < 16
            invariant
                blen == band@.len(),
                start + 64 <= band@.len(),
                x <= 16,
                sum == before + run_luma(band@, start as int, x as nat),
                sum <= before + x * 255,
                before <= y * 16 * 255,
                y < 16,
            decreases 16 - x,
        {
            let o = start + x * 4;
            proof { lemma_px_luma_bound(band@, o as int); }
            let a = band[o + 2] as u32 * 54 + band[o + 1] as u32 * 183 + band[o] as u32 * 19;
            assert(a >> 8u32 == a / 256) by (bit_vector);
            sum = sum + (a >> 8);
            x = x + 1;
        }
        y = y + 1;
    }
    sum / 256
}

/// The payload bits read so far: bit `j` (for `j` < `k`) is set when the
/// sampled luma of its cell is above `thr`.
pub open spec fn decode_bits(band: Seq<u8>, stride: int, thr: int, k: nat) -> u32
    decreases k,
{
    if k == 0 {
        0
    } else {
        let j = k - 1;
        let prev = decode_bits(band, stride, thr, j as nat);
        if sample_spec(band, stride, j / 16, j % 16 + 2) > thr { prev | (1u32 << (j as u32)) } else { prev }
    }
}

/// What a band at offset 0 with `stride` decodes to.
pub open spec fn decode_spec(band: Seq<u8>, stride: int) -> Result<u32, DecodeError> {
    let black = (sample_spec(band, stride, 0, 0) + sample_spec(band, stride, 1, 1)) / 2;
    let white = (sample_spec(band, stride, 0, 1) + sample_spec(band, stride, 1, 0)) / 2;
    if white < black + MIN_CONTRAST {
        Err(DecodeError::NoContrast)
    } else {
        let w = decode_bits(band, stride, (black + white) / 2, 32);
        let id = w & ID_MASK;
        if crc8_spec(low_bytes(id)) == (w >> 24u32) as u8 { Ok(id) } else { Err(DecodeError::BadCrc) }
    }
}

/// Decode one band whose top-left pixel is at offset 0 of `band`.
pub fn decode(band: &[u8], stride: usize) -> (r: Result<u32, DecodeError>)
    requires
        decode_extent(stride as int) <= band@.len(),
    ensures
        r == decode_spec(band@, stride as int),
{
    let black = (sample(band, stride, 0, 0) + sample(band, stride, 1, 1)) / 2;
    let white = (sample(band, stride, 0, 1) + sample(band, stride, 1, 0)) / 2;
    if white < black + MIN_CONTRAST {
        return Err(DecodeError::NoContrast);
    }
    let threshold = (black + white) / 2;
    let mut w: u32 = 0;
    let mut row: usize = 0;
    while row < ROWS
        invariant
            decode_extent(stride as int) <= band@.len(),
            row <= 2,
            w == decode_bits(band@, stride as int, threshold as int, (row * 16) as nat),
        decreases 2 - row,
    {
        let mut col: usize = REFS;
        while col < COLS
            invariant
                decode_extent(stride as int) <= band@.len(),
                row < 2,
                2 <= col <= 18,
                w == decode_bits(band@, stride as int, threshold as int, (row * 16 + col - 2) as nat),
            decreases 18 - col,
        {
            let k = row * BITS_PER_ROW + col - REFS;
            if sample(band, stride, row, col) > threshold {
                w = w | (1u32 << (k as u32));
            }
            col = col + 1;
        }
        row = row + 1;
    }
    let id = w & ID_MASK;
    let crc = {
        let mut bytes: Vec<u8> = Vec::new();
        bytes.push((id & 0xff) as u8);
        bytes.push(((id >> 8) & 0xff) as u8);
        bytes.push(((id >> 16) & 0xff) as u8);
        assert(bytes@ == low_bytes(id));
        crc8(bytes.as_slice())
    };
    if crc == (w >> 24) as u8 {
        Ok(id)
    } else {
        Err(DecodeError::BadCrc)
    }
}


proof fn lemma_paint_len(f: Seq<u8>, stride: int, x0: int, y0: int, w: u32, k: nat)
    ensures
        paint_band(f, stride, x0, y0, w, k).len() == f.len(),
    decreases k,
{
    if k > 0 {
        lemma_paint_len(f, stride, x0, y0, w, (k - 1) as nat);
    }
}

/// Two different spans of a band at (0, 0) never share a byte when a frame
/// line holds a whole band line.
proof fn lemma_spans_disjoint(stride: int, j1: int, j2: int)
    requires
        stride >= 2304,
        0 <= j1 < 1152,
        0 <= j2 < 1152,
        j1 != j2,
    ensures
        span_start(stride, 0, 0, j1) + 128 <= span_start(stride, 0, 0, j2)
            || span_start(stride, 0, 0, j2) + 128 <= span_start(stride, 0, 0, j1),
{
    let l1 = span_line(j1);
    let l2 = span_line(j2);
    let c1 = span_col(j1);
    let c2 = span_col(j2);
    assert(j1 == (l1 / 32) * 576 + c1 * 32 + l1 % 32);
    assert(j2 == (l2 / 32) * 576 + c2 * 32 + l2 % 32);
    if l1 < l2 {
        assert((l2 - l1) * stride >= stride) by (nonlinear_arith)
            requires l2 - l1 >= 1, stride >= 0;
        assert(l2 * stride - l1 * stride == (l2 - l1) * stride) by (nonlinear_arith);
    } else if l2 < l1 {
        assert((l1 - l2) * stride >= stride) by (nonlinear_arith)
            requires l1 - l2 >= 1, stride >= 0;
        assert(l1 * stride - l2 * stride == (l1 - l2) * stride) by (nonlinear_arith);
    } else {
        assert(c1 != c2);
    }
}

/// Inside a painted band, every byte of span `j` holds its pixel value.
proof fn lemma_painted(f: Seq<u8>, stride: int, w: u32, k: nat, j: int, i: int)
    requires
        stride >= 2304,
        0 <= j < k <= 1152,
        span_start(stride, 0, 0, j) <= i < span_start(stride, 0, 0, j) + 128,
        band_extent(stride, 0, 0) <= f.len(),
    ensures
        paint_band(f, stride, 0, 0, w, k)[i]
            == pixel_byte(cell_luma_spec(j / 576, span_col(j), w), i - span_start(stride, 0, 0, j)),
    decreases k,
{
    let last = k - 1;
    lemma_span_in_band(stride, 0, 0, j);
    lemma_paint_len(f, stride, 0, 0, w, last as nat);
    if j != last {
        lemma_spans_disjoint(stride, j, last);
        lemma_painted(f, stride, w, last as nat, j, i);
    }
}

/// Pixel `x` of the run from byte `start` is opaque-independent grey `v`.
pub open spec fn grey_px(band: Seq<u8>, start: int, x: int, v: u8) -> bool {
    band[start + 4 * x] == v && band[start + 4 * x + 1] == v && band[start + 4 * x + 2] == v
}

proof fn lemma_run_of_grey(band: Seq<u8>, start: int, v: u8, m: nat)
    requires
        0 <= start,
        start + 4 * m <= band.len(),
        forall|x: int| 0 <= x < m ==> #[trigger] grey_px(band, start, x, v),
    ensures
        run_luma(band, start, m) == m * v,
    decreases m,
{
    if m > 0 {
        lemma_run_of_grey(band, start, v, (m - 1) as nat);
        let o = start + 4 * (m - 1);
        assert(grey_px(band, start, m - 1, v));
        assert(px_luma(band, o) == v);
        assert((m - 1) * v + v == m * v) by (nonlinear_arith);
    } else {
        assert(m * v == 0) by (nonlinear_arith) requires m == 0;
    }
}

/// The sampled centre of every cell of a freshly painted band reads back as
/// the cell's luma.
proof fn lemma_sample_painted(f: Seq<u8>, stride: int, w: u32, row: int, col: int)
    requires
        stride >= 2304,
        0 <= row < 2,
        0 <= col < 18,
        band_extent(stride, 0, 0) <= f.len(),
    ensures
        sample_spec(paint_band(f, stride, 0, 0, w, 1152), stride, row, col) == cell_luma_spec(row, col, w) as int,
{
    let g = paint_band(f, stride, 0, 0, w, 1152);
    let v = cell_luma_spec(row, col, w);
    lemma_paint_len(f, stride, 0, 0, w, 1152);
    assert forall|m: nat| m <= 16 implies #[trigger] cell_sum(g, stride, row, col, m) == m * 16 * v by {
        lemma_cell_sum(f, stride, w, row, col, m);
    }
    assert(cell_sum(g, stride, row, col, 16) == 256 * v);
}

proof fn lemma_cell_sum(f: Seq<u8>, stride: int, w: u32, row: int, col: int, m: nat)
    requires
        stride >= 2304,
        0 <= row < 2,
        0 <= col < 18,
        m <= 16,
        band_extent(stride, 0, 0) <= f.len(),
    ensures
        cell_sum(paint_band(f, stride, 0, 0, w, 1152), stride, row, col, m)
            == m * 16 * cell_luma_spec(row, col, w),
    decreases m,
{
    if m > 0 {
        let g = paint_band(f, stride, 0, 0, w, 1152);
        let v = cell_luma_spec(row, col, w);
        let y = m - 1;
        lemma_cell_sum(f, stride, w, row, col, (m - 1) as nat);
        let j = row * 576 + col * 32 + 8 + y;
        assert(span_line(j) == row * 32 + 8 + y);
        assert(span_col(j) == col);
        assert(j / 576 == row);
        let start = sample_start(stride, row, col, y);
        let s = span_start(stride, 0, 0, j);
        assert(s == start - 32);
        lemma_span_in_band(stride, 0, 0, j);
        lemma_paint_len(f, stride, 0, 0, w, 1152);
        assert forall|x: int| 0 <= x < 16 implies #[trigger] grey_px(g, start, x, v) by {
            lemma_painted(f, stride, w, 1152, j, start + 4 * x);
            lemma_painted(f, stride, w, 1152, j, start + 4 * x + 1);
            lemma_painted(f, stride, w, 1152, j, start + 4 * x + 2);
            assert((start + 4 * x - s) % 4 == 0);
            assert((start + 4 * x + 1 - s) % 4 == 1);
            assert((start + 4 * x + 2 - s) % 4 == 2);
        }
        lemma_run_of_grey(g, start, v, 16);
        assert((m - 1) * 16 * v + 16 * v == m * 16 * v) by (nonlinear_arith);
    } else {
        assert(m * 16 * cell_luma_spec(row, col, w) == 0) by (nonlinear_arith) requires m == 0;
    }
}

/// The mask of the `k` low bits.
pub open spec fn low_mask(k: u32) -> u32 {
    if k >= 32 { 0xffff_ffffu32 } else { ((1u32 << k) - 1) as u32 }
}

proof fn lemma_bit_step(w: u32, j: u32)
    requires
        j < 32,
    ensures
        (w >> j) & 1 == 1 ==> (w & low_mask(j)) | (1u32 << j) == w & low_mask((j + 1) as u32),
        (w >> j) & 1 != 1 ==> w & low_mask(j) == w & low_mask((j + 1) as u32),
{
    if j < 31 {
        assert((w >> j) & 1 == 1 ==> (w & (((1u32 << j) - 1) as u32)) | (1u32 << j) == w & (((1u32 << ((j + 1) as u32)) - 1) as u32)) by (bit_vector)
            requires j < 31;
        assert((w >> j) & 1 != 1 ==> w & (((1u32 << j) - 1) as u32) == w & (((1u32 << ((j + 1) as u32)) - 1) as u32)) by (bit_vector)
            requires j < 31;
    } else {
        assert((w >> 31u32) & 1 == 1 ==> (w & (((1u32 << 31u32) - 1) as u32)) | (1u32 << 31u32) == w & 0xffff_ffffu32) by (bit_vector);
        assert((w >> 31u32) & 1 != 1 ==> w & (((1u32 << 31u32) - 1) as u32) == w & 0xffff_ffffu32) by (bit_vector);
    }
}

proof fn lemma_decode_bits_painted(f: Seq<u8>, stride: int, w: u32, k: nat)
    requires
        stride >= 2304,
        k <= 32,
        band_extent(stride, 0, 0) <= f.len(),
    ensures
        decode_bits(paint_band(f, stride, 0, 0, w, 1152), stride, 125, k) == w & low_mask(k as u32),
    decreases k,
{
    if k == 0 {
        assert(w & (((1u32 << 0u32) - 1) as u32) == 0) by (bit_vector);
    } else {
        let j = k - 1;
        lemma_decode_bits_painted(f, stride, w, j as nat);
        lemma_sample_painted(f, stride, w, j / 16, j % 16 + 2);
        assert((j / 16) * 16 + (j % 16 + 2) - 2 == j);
        lemma_bit_step(w, j as u32);
    }
}

proof fn lemma_word_fields(id: u32)
    ensures
        word_spec(id) & ID_MASK == id & ID_MASK,
        (word_spec(id) >> 24u32) as u8 == crc8_spec(low_bytes(id & ID_MASK)),
{
    let c = crc8_spec(low_bytes(id & ID_MASK));
    assert(((id & 0x00ff_ffffu32) | ((c as u32) << 24u32)) & 0x00ff_ffffu32 == id & 0x00ff_ffffu32) by (bit_vector);
    assert(((((id & 0x00ff_ffffu32) | ((c as u32) << 24u32)) >> 24u32) as u8) == c) by (bit_vector);
}

/// Decoding a band that was just drawn at (0, 0) gives back the identifier,
/// reduced to its 24 payload bits, whenever a frame line holds a whole band
/// line.
pub proof fn lemma_encode_decode(frame: Seq<u8>, stride: int, id: u32)
    requires
        stride >= BAND_W * 4,
        band_extent(stride, 0, 0) <= frame.len(),
    ensures
        decode_spec(paint_band(frame, stride, 0, 0, word_spec(id), 1152), stride) == Ok::<u32, DecodeError>(id & ID_MASK),
{
    let w = word_spec(id);
    let g = paint_band(frame, stride, 0, 0, w, 1152);
    lemma_sample_painted(frame, stride, w, 0, 0);
    lemma_sample_painted(frame, stride, w, 1, 1);
    lemma_sample_painted(frame, stride, w, 0, 1);
    lemma_sample_painted(frame, stride, w, 1, 0);
    assert(sample_spec(g, stride, 0, 0) == 16);
    assert(sample_spec(g, stride, 1, 1) == 16);
    assert(sample_spec(g, stride, 0, 1) == 235);
    assert(sample_spec(g, stride, 1, 0) == 235);
    lemma_decode_bits_painted(frame, stride, w, 32);
    assert(w & low_mask(32) == w) by {
        assert(w & 0xffff_ffffu32 == w) by (bit_vector);
    }
    lemma_word_fields(id);
}


proof fn lemma_span_shift(stride: int, x0: int, y0: int, j: int)
    ensures
        span_start(stride, x0, y0, j) == span_start(stride, 0, 0, j) + y0 * stride + x0 * 4,
{
    assert((y0 + span_line(j)) * stride == y0 * stride + span_line(j) * stride) by (nonlinear_arith);
}

/// Inside a band painted at (`x0`, `y0`), every byte of span `j` holds its
/// pixel value, whatever the frame held before.
proof fn lemma_painted_at(f: Seq<u8>, stride: int, x0: int, y0: int, w: u32, k: nat, j: int, i: int)
    requires
        stride >= 2304,
        x0 >= 0,
        y0 >= 0,
        0 <= j < k <= 1152,
        span_start(stride, x0, y0, j) <= i < span_start(stride, x0, y0, j) + 128,
        band_extent(stride, x0, y0) <= f.len(),
    ensures
        paint_band(f, stride, x0, y0, w, k)[i]
            == pixel_byte(cell_luma_spec(j / 576, span_col(j), w), i - span_start(stride, x0, y0, j)),
    decreases k,
{
    let last = k - 1;
    lemma_span_in_band(stride, x0, y0, j);
    lemma_span_in_band(stride, x0, y0, last);
    lemma_paint_len(f, stride, x0, y0, w, last as nat);
    if j != last {
        lemma_spans_disjoint(stride, j, last);
        lemma_span_shift(stride, x0, y0, j);
        lemma_span_shift(stride, x0, y0, last);
        lemma_painted_at(f, stride, x0, y0, w, last as nat, j, i);
    }
}

/// Bytes before the first byte of a band painted at (`x0`, `y0`), or from
/// its extent on, keep what the frame held.
pub proof fn lemma_unpainted_at(f: Seq<u8>, stride: int, x0: int, y0: int, w: u32, k: nat, i: int)
    requires
        stride >= 0,
        x0 >= 0,
        y0 >= 0,
        k <= 1152,
        0 <= i < f.len(),
        i < y0 * stride + x0 * 4 || i >= band_extent(stride, x0, y0),
    ensures
        paint_band(f, stride, x0, y0, w, k)[i] == f[i],
    decreases k,
{
    if k > 0 {
        let j = k - 1;
        lemma_unpainted_at(f, stride, x0, y0, w, (k - 1) as nat, i);
        lemma_span_in_band(stride, x0, y0, j);
        lemma_span_in_band(stride, 0, 0, j);
        lemma_span_shift(stride, x0, y0, j);
        lemma_paint_len(f, stride, x0, y0, w, (k - 1) as nat);
    }
}

/// Byte `o` (line `o / 2304`, byte `o % 2304` of the line) of the band that
/// carries the word `w`, as drawn.
pub open spec fn band_pixel(w: u32, o: int) -> u8 {
    let r = o / 2304;
    let c = o % 2304;
    pixel_byte(cell_luma_spec(r / 32, c / 128, w), c % 128)
}

/// Where byte `c` of band line `r` lies in a frame with `stride` when the
/// band's top-left corner is at (`x0`, `y0`).
pub open spec fn band_offset(stride: int, x0: int, y0: int, r: int, c: int) -> int {
    (y0 + r) * stride + x0 * 4 + c
}

/// The frame `f` holds, at (`x0`, `y0`), the band of word `w`.
pub open spec fn band_at(f: Seq<u8>, stride: int, x0: int, y0: int, w: u32) -> bool {
    forall|r: int, c: int| 0 <= r < 64 && 0 <= c < 2304 ==> #[trigger] f[band_offset(stride, x0, y0, r, c)]
        == band_pixel(w, r * 2304 + c)
}

/// A band painted at (`x0`, `y0`) is there, byte for byte.
pub proof fn lemma_band_painted(f: Seq<u8>, stride: int, x0: int, y0: int, w: u32)
    requires
        stride >= 2304,
        x0 >= 0,
        y0 >= 0,
        band_extent(stride, x0, y0) <= f.len(),
    ensures
        band_at(paint_band(f, stride, x0, y0, w, 1152), stride, x0, y0, w),
{
    let g = paint_band(f, stride, x0, y0, w, 1152);
    assert forall|r: int, c: int| 0 <= r < 64 && 0 <= c < 2304 implies #[trigger] g[band_offset(stride, x0, y0, r, c)]
        == band_pixel(w, r * 2304 + c) by {
        let col = c / 128;
        let j = (r / 32) * 576 + col * 32 + r % 32;
        assert(span_line(j) == r);
        assert(span_col(j) == col);
        assert(j / 576 == r / 32);
        let i = band_offset(stride, x0, y0, r, c);
        assert(span_start(stride, x0, y0, j) == (y0 + r) * stride + x0 * 4 + col * 128);
        lemma_painted_at(f, stride, x0, y0, w, 1152, j, i);
        assert((r * 2304 + c) / 2304 == r);
        assert((r * 2304 + c) % 2304 == c);
        assert(c % 128 == c - col * 128);
    }
}


/// The band read out of `f` at (`x0`, `y0`): its 64 lines of 2304 bytes,
/// one after the other.
pub open spec fn band_copy(f: Seq<u8>, stride: int, x0: int, y0: int) -> Seq<u8> {
    Seq::new(147456, |o: int| f[band_offset(stride, x0, y0, o / 2304, o % 2304)])
}

/// A frame that holds the band of an identifier at (`x0`, `y0`) gives the
/// identifier back, reduced to its 24 payload bits, once the band is copied
/// out and decoded.
pub proof fn lemma_band_copy_decodes(f: Seq<u8>, stride: int, x0: int, y0: int, id: u32)
    requires
        band_at(f, stride, x0, y0, word_spec(id)),
    ensures
        decode_spec(band_copy(f, stride, x0, y0), 2304) == Ok::<u32, DecodeError>(id & ID_MASK),
{
    let w = word_spec(id);
    let zeros = Seq::new(147456, |o: int| 0u8);
    let canon = paint_band(zeros, 2304, 0, 0, w, 1152);
    lemma_band_painted(zeros, 2304, 0, 0, w);
    lemma_paint_len(zeros, 2304, 0, 0, w, 1152);
    let copy = band_copy(f, stride, x0, y0);
    assert forall|o: int| 0 <= o < 147456 implies #[trigger] copy[o] == canon[o] by {
        let r = o / 2304;
        let c = o % 2304;
        assert(r * 2304 + c == o);
        assert(0 <= r < 64 && 0 <= c < 2304);
        assert(band_offset(2304, 0, 0, r, c) == o);
        assert(f[band_offset(stride, x0, y0, r, c)] == band_pixel(w, r * 2304 + c));
        assert(canon[band_offset(2304, 0, 0, r, c)] == band_pixel(w, r * 2304 + c));
    }
    assert(copy =~= canon);
    lemma_encode_decode(zeros, 2304, id);
}


/// Painting a band keeps the frame's length.
pub proof fn lemma_paint_band_len(f: Seq<u8>, stride: int, x0: int, y0: int, w: u32)
    ensures
        paint_band(f, stride, x0, y0, w, 1152).len() == f.len(),
{
    lemma_paint_len(f, stride, x0, y0, w, 1152);
}

} // verus!
