//! Row-major pixel buffers: index arithmetic and block painting.
use vstd::prelude::*;
use vstd::arithmetic::div_mod::{lemma_fundamental_div_mod, lemma_fundamental_div_mod_converse};

verus! {

/// Pixel `(x, y)` lies in the `size`-by-`size` square whose top-left corner is `(x0, y0)`.
pub open spec fn in_square(x: int, y: int, x0: int, y0: int, size: int) -> bool {
    x0 <= x < x0 + size && y0 <= y < y0 + size
}

/// The buffer index of column `x`, row `y` in a row-major buffer `w` pixels wide.
pub open spec fn pixel_index(w: int, x: int, y: int) -> int {
    y * w + x
}

pub proof fn lemma_index_coords(w: int, x: int, y: int)
    requires
        0 <= x < w,
        0 <= y,
    ensures
        pixel_index(w, x, y) % w == x,
        pixel_index(w, x, y) / w == y,
{
    lemma_fundamental_div_mod_converse(y * w + x, w, y, x);
}

pub proof fn lemma_coords_index(w: int, h: int, i: int)
    requires
        0 < w,
        0 <= h,
        0 <= i < w * h,
    ensures
        0 <= i % w < w,
        0 <= i / w < h,
        i == pixel_index(w, i % w, i / w),
{
    lemma_fundamental_div_mod(i, w);
    let q = i / w;
    let r = i % w;
    assert(0 <= r < w);
    assert(0 <= q) by (nonlinear_arith)
        requires
            i == w * q + r,
            0 <= i,
            r < w,
            0 < w,
    ;
    assert(w * q == q * w) by (nonlinear_arith);
    assert(q < h) by (nonlinear_arith)
        requires
            i == w * q + r,
            i < w * h,
            0 <= r,
            0 < w,
    ;
}

pub proof fn lemma_index_in_bounds(w: int, h: int, x: int, y: int)
    requires
        0 <= x < w,
        0 <= y < h,
    ensures
        0 <= pixel_index(w, x, y) < w * h,
{
    assert(0 <= y * w + x < w * h) by (nonlinear_arith)
        requires
            0 <= x < w,
            0 <= y < h,
    ;
}

/// Paints the `size`-by-`size` square with top-left corner `(x0, y0)` in `color`,
/// clipped to the `w`-by-`h` buffer; every other pixel keeps its value.
pub fn fill_square(buf: &mut Vec<u32>, w: usize, h: usize, x0: usize, y0: usize, size: usize, color: u32)
    requires
        old(buf)@.len() == w * h,
        w * h <= usize::MAX,
        x0 + size <= usize::MAX,
        y0 + size <= usize::MAX,
    ensures
        final(buf)@.len() == old(buf)@.len(),
        forall|i: int|
            0 <= i < old(buf)@.len() ==> #[trigger] final(buf)@[i] == if in_square(
                i % (w as int),
                i / (w as int),
                x0 as int,
                y0 as int,
                size as int,
            ) {
                color
            } else {
                old(buf)@[i]
            },
{
    let ghost orig = buf@;
    let mut sy: usize = 0;
    while sy < size
        invariant
            orig.len() == w * h,
            w * h <= usize::MAX,
            buf@.len() == orig.len(),
            x0 + size <= usize::MAX,
            y0 + size <= usize::MAX,
            sy <= size,
            forall|i: int|
                0 <= i < orig.len() ==> #[trigger] buf@[i] == if x0 <= i % (w as int) < x0
                    + size && y0 <= i / (w as int) < y0 + sy {
                    color
                } else {
                    orig[i]
                },
        decreases size - sy,
    {
        let mut sx: usize = 0;
        while sx < size
            invariant
                orig.len() == w * h,
                w * h <= usize::MAX,
                buf@.len() == orig.len(),
                x0 + size <= usize::MAX,
                y0 + size <= usize::MAX,
                sy < size,
                sx <= size,
                forall|i: int|
                    0 <= i < orig.len() ==> #[trigger] buf@[i] == if (x0 <= i % (w as int) < x0
                        + size && y0 <= i / (w as int) < y0 + sy) || (x0 <= i % (w as int) < x0
                        + sx && i / (w as int) == y0 + sy) {
                        color
                    } else {
                        orig[i]
                    },
            decreases size - sx,
        {
            let px = x0 + sx;
            let py = y0 + sy;
            let ghost prev = buf@;
            if px < w && py < h {
                proof {
                    lemma_index_in_bounds(w as int, h as int, px as int, py as int);
                    assert(py * w <= py * w + px);
                }
                let idx = py * w + px;
                buf.set(idx, color);
                assert forall|i: int| 0 <= i < orig.len() implies #[trigger] buf@[i] == if (x0
                    <= i % (w as int) < x0 + size && y0 <= i / (w as int) < y0 + sy) || (x0 <= i
                    % (w as int) < x0 + sx + 1 && i / (w as int) == y0 + sy) {
                    color
                } else {
                    orig[i]
                } by {
                    lemma_coords_index(w as int, h as int, i);
                    lemma_index_coords(w as int, px as int, py as int);
                    if i == idx {
                        assert(i % (w as int) == px && i / (w as int) == py);
                    } else {
                        assert(buf@[i] == prev[i]);
                    }
                }
            } else {
                assert forall|i: int| 0 <= i < orig.len() implies #[trigger] buf@[i] == if (x0
                    <= i % (w as int) < x0 + size && y0 <= i / (w as int) < y0 + sy) || (x0 <= i
                    % (w as int) < x0 + sx + 1 && i / (w as int) == y0 + sy) {
                    color
                } else {
                    orig[i]
                } by {
                    if w > 0 {
                        lemma_coords_index(w as int, h as int, i);
                    } else {
                        assert(orig.len() == 0) by (nonlinear_arith)
                            requires
                                orig.len() == w * h,
                                w == 0,
                        ;
                    }
                }
            }
            sx += 1;
        }
        sy += 1;
    }
}

/// Glyph width of the bitmap font, in font pixels.
pub const FONT_W: usize = 5;

/// Glyph height of the bitmap font, in font pixels (one byte of the font per row).
pub const FONT_H: usize = 8;

/// Bit `4 - gx` of row `gy` of glyph `idx` is set: the font pixel `(gx, gy)` is ink.
/// Rows past the end of the font data are blank.
pub open spec fn glyph_bit(font: Seq<u8>, idx: int, gx: int, gy: int) -> bool {
    &&& 0 <= gx < FONT_W
    &&& 0 <= gy < FONT_H
    &&& 0 <= idx * 8 + gy < font.len()
    &&& font[idx * 8 + gy] & (1u8 << ((4 - gx) as u8)) != 0u8
}

/// Glyph `idx`, drawn with its top-left corner at `(cx, cy)` and each font pixel
/// blown up to a `scale`-by-`scale` square, inks pixel `(x, y)`.
pub open spec fn glyph_covers(
    font: Seq<u8>,
    idx: int,
    cx: int,
    cy: int,
    scale: int,
    x: int,
    y: int,
) -> bool {
    &&& cx <= x
    &&& cy <= y
    &&& glyph_bit(font, idx, (x - cx) / scale, (y - cy) / scale)
}

/// As `glyph_covers`, restricted to the font pixels that come before `(lim_x, lim_y)`
/// in row-major order.
pub open spec fn glyph_covers_before(
    font: Seq<u8>,
    idx: int,
    cx: int,
    cy: int,
    scale: int,
    x: int,
    y: int,
    lim_x: int,
    lim_y: int,
) -> bool {
    &&& glyph_covers(font, idx, cx, cy, scale, x, y)
    &&& ((y - cy) / scale < lim_y || ((y - cy) / scale == lim_y && (x - cx) / scale < lim_x))
}

/// The weight of font column `gx` in a glyph's row byte: the leftmost column (0) is the
/// byte's 16s bit, the rightmost (4) its 1s bit.
pub open spec fn column_weight(gx: int) -> int {
    if gx == 0 {
        16
    } else if gx == 1 {
        8
    } else if gx == 2 {
        4
    } else if gx == 3 {
        2
    } else {
        1
    }
}

/// Row `gy` of glyph `idx` has ink in column `gx`: that column's bit of the row byte is set.
pub open spec fn row_byte_has_ink(font: Seq<u8>, idx: int, gx: int, gy: int) -> bool {
    ((font[idx * 8 + gy] as int) / column_weight(gx)) % 2 == 1
}

proof fn lemma_row_bit(b: u8, gx: int)
    requires
        0 <= gx < 5,
    ensures
        (b & (1u8 << ((4 - gx) as u8)) != 0u8) == (((b as int) / column_weight(gx)) % 2 == 1),
{
    if gx == 0 {
        assert((b & (1u8 << 4u8) != 0u8) == ((b / 16u8) % 2u8 == 1u8)) by (bit_vector);
    } else if gx == 1 {
        assert((b & (1u8 << 3u8) != 0u8) == ((b / 8u8) % 2u8 == 1u8)) by (bit_vector);
    } else if gx == 2 {
        assert((b & (1u8 << 2u8) != 0u8) == ((b / 4u8) % 2u8 == 1u8)) by (bit_vector);
    } else if gx == 3 {
        assert((b & (1u8 << 1u8) != 0u8) == ((b / 2u8) % 2u8 == 1u8)) by (bit_vector);
    } else {
        assert((b & (1u8 << 0u8) != 0u8) == ((b / 1u8) % 2u8 == 1u8)) by (bit_vector);
    }
}

/// A glyph is drawn as designed, not mirrored: the `scale`-by-`scale` square of font
/// pixel `(gx, gy)` is inked exactly when column `gx`'s bit of row byte `gy` is set,
/// column 0 being the byte's 16s bit. So a row byte with only that bit set inks the
/// leftmost square of the row and not the rightmost.
pub proof fn glyph_ink_follows_row_bits(
    font: Seq<u8>,
    idx: int,
    cx: int,
    cy: int,
    scale: int,
    gx: int,
    gy: int,
    x: int,
    y: int,
)
    requires
        1 <= scale,
        0 <= idx,
        0 <= gx < 5,
        0 <= gy < 8,
        idx * 8 + gy < font.len(),
        cx + gx * scale <= x < cx + gx * scale + scale,
        cy + gy * scale <= y < cy + gy * scale + scale,
    ensures
        glyph_covers(font, idx, cx, cy, scale, x, y) == row_byte_has_ink(font, idx, gx, gy),
{
    lemma_block(x - cx, scale, gx);
    lemma_block(y - cy, scale, gy);
    assert(0 <= gx * scale && 0 <= gy * scale) by (nonlinear_arith)
        requires
            0 <= gx,
            0 <= gy,
            1 <= scale,
    ;
    lemma_row_bit(font[idx * 8 + gy], gx);
}

/// `t` lies in the `a`-th block of width `s` exactly when `t / s == a`.
pub proof fn lemma_block(t: int, s: int, a: int)
    requires
        0 < s,
        0 <= a,
    ensures
        (a * s <= t < a * s + s) <==> (0 <= t && t / s == a),
{
    if a * s <= t < a * s + s {
        lemma_fundamental_div_mod_converse(t, s, a, t - a * s);
        assert(0 <= a * s) by (nonlinear_arith)
            requires
                0 <= a,
                0 < s,
        ;
    }
    if 0 <= t && t / s == a {
        lemma_fundamental_div_mod(t, s);
        assert(s * a == a * s) by (nonlinear_arith);
    }
}

/// Paints glyph `idx` of `font` in `color`, top-left corner at `(cx, cy)`, each font pixel
/// a `scale`-by-`scale` square, clipped to the `w`-by-`h` buffer.
pub fn paint_glyph(
    buf: &mut Vec<u32>,
    w: usize,
    h: usize,
    font: &[u8],
    idx: usize,
    cx: usize,
    cy: usize,
    scale: usize,
    color: u32,
)
    requires
        old(buf)@.len() == w * h,
        w * h <= usize::MAX,
        1 <= scale,
        idx < 95,
        cx + 5 * scale <= usize::MAX,
        cy + 8 * scale <= usize::MAX,
    ensures
        final(buf)@.len() == old(buf)@.len(),
        forall|i: int|
            0 <= i < old(buf)@.len() ==> #[trigger] final(buf)@[i] == if glyph_covers(
                font@,
                idx as int,
                cx as int,
                cy as int,
                scale as int,
                i % (w as int),
                i / (w as int),
            ) {
                color
            } else {
                old(buf)@[i]
            },
{
    let ghost orig = buf@;
    let glyph_offset = idx * 8;
    let mut gy: usize = 0;
    while gy < FONT_H
        invariant
            orig.len() == w * h,
            w * h <= usize::MAX,
            buf@.len() == orig.len(),
            1 <= scale,
            idx < 95,
            glyph_offset == idx * 8,
            cx + 5 * scale <= usize::MAX,
            cy + 8 * scale <= usize::MAX,
            gy <= FONT_H,
            forall|i: int|
                0 <= i < orig.len() ==> #[trigger] buf@[i] == if glyph_covers_before(
                    font@,
                    idx as int,
                    cx as int,
                    cy as int,
                    scale as int,
                    i % (w as int),
                    i / (w as int),
                    0,
                    gy as int,
                ) {
                    color
                } else {
                    orig[i]
                },
        ensures
            buf@.len() == orig.len(),
            forall|i: int|
                0 <= i < orig.len() ==> #[trigger] buf@[i] == if glyph_covers(
                    font@,
                    idx as int,
                    cx as int,
                    cy as int,
                    scale as int,
                    i % (w as int),
                    i / (w as int),
                ) {
                    color
                } else {
                    orig[i]
                },
        decreases FONT_H - gy,
    {
        if glyph_offset + gy >= font.len() {
            assert forall|i: int| 0 <= i < orig.len() implies #[trigger] buf@[i] == if glyph_covers(
                font@,
                idx as int,
                cx as int,
                cy as int,
                scale as int,
                i % (w as int),
                i / (w as int),
            ) {
                color
            } else {
                orig[i]
            } by {
                let x = i % (w as int);
                let y = i / (w as int);
                if glyph_covers(font@, idx as int, cx as int, cy as int, scale as int, x, y) {
                    assert((y - cy) / (scale as int) < gy);
                }
            }
            break;
        }
        let row_bits = font[glyph_offset + gy];
        let mut gx: usize = 0;
        while gx < FONT_W
            invariant
                orig.len() == w * h,
                w * h <= usize::MAX,
                buf@.len() == orig.len(),
                1 <= scale,
                idx < 95,
                glyph_offset == idx * 8,
                cx + 5 * scale <= usize::MAX,
                cy + 8 * scale <= usize::MAX,
                gy < FONT_H,
                gx <= FONT_W,
                glyph_offset + gy < font@.len(),
                row_bits == font@[glyph_offset + gy],
                forall|i: int|
                    0 <= i < orig.len() ==> #[trigger] buf@[i] == if glyph_covers_before(
                        font@,
                        idx as int,
                        cx as int,
                        cy as int,
                        scale as int,
                        i % (w as int),
                        i / (w as int),
                        gx as int,
                        gy as int,
                    ) {
                        color
                    } else {
                        orig[i]
                    },
            decreases FONT_W - gx,
        {
            let ghost prev = buf@;
            if row_bits & (1u8 << ((4 - gx) as u8)) != 0 {
                assert(gx * scale <= 4 * scale) by (nonlinear_arith)
                    requires
                        gx < 5,
                ;
                assert(gy * scale <= 7 * scale) by (nonlinear_arith)
                    requires
                        gy < 8,
                ;
                let x0 = cx + gx * scale;
                let y0 = cy + gy * scale;
                fill_square(buf, w, h, x0, y0, scale, color);
                assert forall|i: int| 0 <= i < orig.len() implies #[trigger] buf@[i]
                    == if glyph_covers_before(
                    font@,
                    idx as int,
                    cx as int,
                    cy as int,
                    scale as int,
                    i % (w as int),
                    i / (w as int),
                    gx + 1,
                    gy as int,
                ) {
                    color
                } else {
                    orig[i]
                } by {
                    let x = i % (w as int);
                    let y = i / (w as int);
                    lemma_block(x - cx, scale as int, gx as int);
                    lemma_block(y - cy, scale as int, gy as int);
                    assert(prev[i] == buf@[i] || in_square(x, y, x0 as int, y0 as int, scale as int));
                }
            } else {
                assert forall|i: int| 0 <= i < orig.len() implies #[trigger] buf@[i]
                    == if glyph_covers_before(
                    font@,
                    idx as int,
                    cx as int,
                    cy as int,
                    scale as int,
                    i % (w as int),
                    i / (w as int),
                    gx + 1,
                    gy as int,
                ) {
                    color
                } else {
                    orig[i]
                } by {
                    let x = i % (w as int);
                    let y = i / (w as int);
                    if glyph_covers_before(font@, idx as int, cx as int, cy as int, scale as int, x, y, gx + 1, gy as int) {
                        if (y - cy) / (scale as int) == gy && (x - cx) / (scale as int) == gx {
                            assert(false);
                        }
                    }
                }
            }
            gx += 1;
        }
        assert forall|i: int| 0 <= i < orig.len() implies #[trigger] buf@[i]
            == if glyph_covers_before(
            font@,
            idx as int,
            cx as int,
            cy as int,
            scale as int,
            i % (w as int),
            i / (w as int),
            0,
            gy + 1,
        ) {
            color
        } else {
            orig[i]
        } by {
            let x = i % (w as int);
            let y = i / (w as int);
            if glyph_covers(font@, idx as int, cx as int, cy as int, scale as int, x, y) {
                assert((x - cx) / (scale as int) < FONT_W);
            }
        }
        gy += 1;
    }
}

/// The glyph of `c`: printable ASCII starts at glyph 0 (space); control characters
/// fall back to glyph 0.
pub open spec fn glyph_index(c: char) -> int {
    if (c as u32) < 32 {
        0
    } else {
        (c as u32) - 32
    }
}

/// The font holds glyphs for the 95 printable ASCII characters only.
pub open spec fn has_glyph(c: char) -> bool {
    glyph_index(c) < 95
}

/// How far the pen moves after `c`: a glyph and one blank column, or just the glyph's
/// width when the character has no glyph.
pub open spec fn advance(c: char, scale: int) -> int {
    if has_glyph(c) {
        6 * scale
    } else {
        5 * scale
    }
}

/// The column at which character `k` of `text` is drawn when the text starts at `col`.
pub open spec fn char_x(text: Seq<char>, col: int, scale: int, k: int) -> int
    decreases k,
{
    if k <= 0 {
        col
    } else {
        char_x(text, col, scale, k - 1) + advance(text[k - 1], scale)
    }
}

/// Character `k` of `text`, drawn from `(col, row)`, inks pixel `(x, y)`.
pub open spec fn char_covers(
    font: Seq<u8>,
    text: Seq<char>,
    col: int,
    row: int,
    scale: int,
    k: int,
    x: int,
    y: int,
) -> bool {
    &&& has_glyph(text[k])
    &&& glyph_covers(font, glyph_index(text[k]), char_x(text, col, scale, k), row, scale, x, y)
}

/// One of the first `n` characters of `text` inks pixel `(x, y)`.
pub open spec fn text_covers_first(
    font: Seq<u8>,
    text: Seq<char>,
    col: int,
    row: int,
    scale: int,
    n: int,
    x: int,
    y: int,
) -> bool {
    exists|k: int| 0 <= k < n && #[trigger] char_covers(font, text, col, row, scale, k, x, y)
}

/// `text`, drawn from `(col, row)` at `scale`, inks pixel `(x, y)`.
pub open spec fn text_covers(
    font: Seq<u8>,
    text: Seq<char>,
    col: int,
    row: int,
    scale: int,
    x: int,
    y: int,
) -> bool {
    text_covers_first(font, text, col, row, scale, text.len() as int, x, y)
}

/// The buffer `buf` (`w` pixels wide) after drawing `text` in `color` from `(col, row)`.
pub open spec fn painted(
    buf: Seq<u32>,
    w: int,
    font: Seq<u8>,
    text: Seq<char>,
    col: int,
    row: int,
    scale: int,
    color: u32,
) -> Seq<u32> {
    Seq::new(
        buf.len(),
        |i: int|
            if text_covers(font, text, col, row, scale, i % w, i / w) {
                color
            } else {
                buf[i]
            },
    )
}

pub proof fn lemma_char_x_monotone(text: Seq<char>, col: int, scale: int, j: int, k: int)
    requires
        0 <= scale,
        j <= k,
    ensures
        char_x(text, col, scale, j) <= char_x(text, col, scale, k),
    decreases k - j,
{
    if j < k {
        lemma_char_x_monotone(text, col, scale, j, k - 1);
        assert(0 <= 5 * scale) by (nonlinear_arith)
            requires
                0 <= scale,
        ;
    }
}

/// Draws `text` in `color` into the `w`-by-`h` buffer, pen starting at `(col, row)`:
/// each character with a glyph is painted and the pen moves right by `advance`.
pub fn paint_text(
    buf: &mut Vec<u32>,
    w: usize,
    h: usize,
    font: &[u8],
    text: &[char],
    col: usize,
    row: usize,
    scale: usize,
    color: u32,
)
    requires
        old(buf)@.len() == w * h,
        w * h <= usize::MAX,
        1 <= scale,
        0 < w * h ==> w + 6 * scale <= usize::MAX,
        0 < w * h ==> h + 8 * scale <= usize::MAX,
    ensures
        final(buf)@ == painted(
            old(buf)@,
            w as int,
            font@,
            text@,
            col as int,
            row as int,
            scale as int,
            color,
        ),
{
    let ghost orig = buf@;
    let ghost target = painted(
        orig,
        w as int,
        font@,
        text@,
        col as int,
        row as int,
        scale as int,
        color,
    );
    if row >= h || col >= w {
        // Nothing to the right of or below the buffer can be painted.
        assert forall|i: int| 0 <= i < orig.len() implies #[trigger] target[i] == orig[i] by {
            lemma_coords_index(w as int, h as int, i);
            if text_covers(font@, text@, col as int, row as int, scale as int, i % (w as int), i / (w as int)) {
                let k = choose|k: int| 0 <= k < text@.len() && #[trigger] char_covers(
                    font@,
                    text@,
                    col as int,
                    row as int,
                    scale as int,
                    k,
                    i % (w as int),
                    i / (w as int),
                );
                lemma_char_x_monotone(text@, col as int, scale as int, 0, k);
            }
        }
        assert(buf@ =~= target);
        return;
    }
    assert(0 < w * h) by (nonlinear_arith)
        requires
            row < h,
            col < w,
    ;
    let mut cx: usize = col;
    let mut k: usize = 0;
    while k < text.len()
        invariant
            orig.len() == w * h,
            w * h <= usize::MAX,
            0 < w * h,
            buf@.len() == orig.len(),
            1 <= scale,
            w + 6 * scale <= usize::MAX,
            h + 8 * scale <= usize::MAX,
            row < h,
            k <= text@.len(),
            cx == char_x(text@, col as int, scale as int, k as int),
            forall|i: int|
                0 <= i < orig.len() ==> #[trigger] buf@[i] == if text_covers_first(
                    font@,
                    text@,
                    col as int,
                    row as int,
                    scale as int,
                    k as int,
                    i % (w as int),
                    i / (w as int),
                ) {
                    color
                } else {
                    orig[i]
                },
        ensures
            buf@.len() == orig.len(),
            forall|i: int|
                0 <= i < orig.len() ==> #[trigger] buf@[i] == if text_covers(
                    font@,
                    text@,
                    col as int,
                    row as int,
                    scale as int,
                    i % (w as int),
                    i / (w as int),
                ) {
                    color
                } else {
                    orig[i]
                },
        decreases text@.len() - k,
    {
        if cx >= w {
            // The pen only moves right: no later character can reach the buffer.
            assert forall|i: int| 0 <= i < orig.len() implies #[trigger] buf@[i] == if text_covers(
                font@,
                text@,
                col as int,
                row as int,
                scale as int,
                i % (w as int),
                i / (w as int),
            ) {
                color
            } else {
                orig[i]
            } by {
                let x = i % (w as int);
                let y = i / (w as int);
                lemma_coords_index(w as int, h as int, i);
                if text_covers(font@, text@, col as int, row as int, scale as int, x, y) {
                    let j = choose|j: int| 0 <= j < text@.len() && #[trigger] char_covers(
                        font@,
                        text@,
                        col as int,
                        row as int,
                        scale as int,
                        j,
                        x,
                        y,
                    );
                    if j >= k {
                        lemma_char_x_monotone(text@, col as int, scale as int, k as int, j);
                    }
                    assert(text_covers_first(font@, text@, col as int, row as int, scale as int, k as int, x, y));
                }
            }
            break;
        }
        let ch = text[k];
        let code = ch as u32;
        let idx: usize = if code < 32 {
            0
        } else {
            (code - 32) as usize
        };
        assert(idx == glyph_index(text@[k as int]));
        assert(cx + 5 * scale <= usize::MAX);
        assert(row + 8 * scale <= usize::MAX);
        let ghost prev = buf@;
        if idx >= 95 {
            assert forall|i: int| 0 <= i < orig.len() implies #[trigger] buf@[i] == if text_covers_first(
                font@,
                text@,
                col as int,
                row as int,
                scale as int,
                k + 1,
                i % (w as int),
                i / (w as int),
            ) {
                color
            } else {
                orig[i]
            } by {
                let x = i % (w as int);
                let y = i / (w as int);
                if text_covers_first(font@, text@, col as int, row as int, scale as int, k + 1, x, y) {
                    let j = choose|j: int| 0 <= j < k + 1 && #[trigger] char_covers(
                        font@,
                        text@,
                        col as int,
                        row as int,
                        scale as int,
                        j,
                        x,
                        y,
                    );
                    assert(j != k);
                }
            }
            cx = cx + 5 * scale;
        } else {
            paint_glyph(buf, w, h, font, idx, cx, row, scale, color);
            assert forall|i: int| 0 <= i < orig.len() implies #[trigger] buf@[i] == if text_covers_first(
                font@,
                text@,
                col as int,
                row as int,
                scale as int,
                k + 1,
                i % (w as int),
                i / (w as int),
            ) {
                color
            } else {
                orig[i]
            } by {
                let x = i % (w as int);
                let y = i / (w as int);
                if char_covers(font@, text@, col as int, row as int, scale as int, k as int, x, y) {
                    assert(text_covers_first(font@, text@, col as int, row as int, scale as int, k + 1, x, y));
                } else if text_covers_first(font@, text@, col as int, row as int, scale as int, k + 1, x, y) {
                    let j = choose|j: int| 0 <= j < k + 1 && #[trigger] char_covers(
                        font@,
                        text@,
                        col as int,
                        row as int,
                        scale as int,
                        j,
                        x,
                        y,
                    );
                    assert(j != k);
                    assert(text_covers_first(font@, text@, col as int, row as int, scale as int, k as int, x, y));
                } else {
                    if text_covers_first(font@, text@, col as int, row as int, scale as int, k as int, x, y) {
                        let j = choose|j: int| 0 <= j < k && #[trigger] char_covers(
                            font@,
                            text@,
                            col as int,
                            row as int,
                            scale as int,
                            j,
                            x,
                            y,
                        );
                        assert(text_covers_first(font@, text@, col as int, row as int, scale as int, k + 1, x, y));
                    }
                }
            }
            cx = cx + 6 * scale;
        }
        k += 1;
    }
    assert(buf@ =~= target);
}

} // verus!
