//! Pixel-buffer text renderer: a framebuffer, a pen, and a 5x8 bitmap font.
use vstd::prelude::*;
use crate::raster::{painted, paint_text, char_x, char_covers, text_covers, lemma_char_x_monotone};
use vstd::arithmetic::div_mod::lemma_fundamental_div_mod_converse;
use crate::text::{chars_of, trim_chars, trim_by, Pat, line_views};

verus! {

/// Background colour.
pub const BG: u32 = 0xFF121212;

/// Body text colour.
pub const FG: u32 = 0xFFFFFFFF;

/// Status bar and section titles.
pub const ACCENT: u32 = 0xFF90CAF9;

/// Status bar background (accepted by `draw_str`, which paints no background).
pub const HEADER_BG: u32 = 0xFF1A1A2E;

/// Footer text colour.
pub const FOOTER: u32 = 0x40FFFFFF;

/// Width of a column of text, in font pixels, when choosing the scale: the target is about
/// 48 columns of 5-pixel glyphs across the window, 48 * 5 = 240.
pub const TARGET_WIDTH: usize = 240;

/// The status bar text drawn at the top of every frame.
pub open spec fn status_text() -> Seq<char> {
    "SysInfo Dashboard  v1.0.0-rc1"@
}

/// The footer text drawn at the bottom of every frame.
pub open spec fn footer_text() -> Seq<char> {
    "  Rust Native  |  Swipe to refresh"@
}

/// A section header line starts with two box-drawing rules, like `── Device ──`.
pub open spec fn is_section(line: Seq<char>) -> bool {
    line.len() >= 2 && line[0] == '─' && line[1] == '─'
}

/// The title of a section header: the rules and the spaces around them stripped.
pub open spec fn section_title(line: Seq<char>) -> Seq<char> {
    trim_by(trim_by(line, Pat::Exactly('─')), Pat::Whitespace)
}

/// One text draw of a frame: the characters, the pen row and the colour.
pub type DrawOp = (Seq<char>, int, u32);

/// The draws for the body lines of a frame, the first line's pen row being `row`.
/// Blank lines only move the pen down half a line; a section header is drawn as its title
/// in the accent colour and takes four more pixels; the body stops after the first line
/// whose successor would not fit above the bottom of an `h`-pixel-high buffer.
pub open spec fn body_ops(lines: Seq<Seq<char>>, scale: int, h: int, row: int) -> Seq<DrawOp>
    decreases lines.len(),
{
    if lines.len() == 0 {
        Seq::empty()
    } else {
        let line = lines[0];
        if line.len() == 0 {
            body_ops(lines.drop_first(), scale, h, row + 4 * scale)
        } else {
            let op: DrawOp = if is_section(line) {
                (section_title(line), row, ACCENT)
            } else {
                (line, row, FG)
            };
            let after = if is_section(line) {
                row + 4
            } else {
                row
            } + 8 * scale + 2;
            if after + 8 * scale >= h {
                seq![op]
            } else {
                seq![op] + body_ops(lines.drop_first(), scale, h, after)
            }
        }
    }
}

/// The lines of `lines` that are not blank, in order.
pub open spec fn nonblank(lines: Seq<Seq<char>>) -> Seq<Seq<char>>
    decreases lines.len(),
{
    if lines.len() == 0 {
        Seq::empty()
    } else if lines[0].len() == 0 {
        nonblank(lines.drop_first())
    } else {
        seq![lines[0]] + nonblank(lines.drop_first())
    }
}

/// The text a line is drawn as: a section header as its title, anything else as is.
pub open spec fn shown_text(line: Seq<char>) -> Seq<char> {
    if is_section(line) {
        section_title(line)
    } else {
        line
    }
}

/// The colour a line is drawn in: the accent for a section header, else the text colour.
pub open spec fn shown_color(line: Seq<char>) -> u32 {
    if is_section(line) {
        ACCENT
    } else {
        FG
    }
}

/// When the buffer is tall enough for every line, the body draws each line that is not
/// blank, in order, as its shown text and colour; blank lines draw nothing and end
/// nothing.
pub proof fn body_draws_every_nonblank_line(lines: Seq<Seq<char>>, scale: int, h: int, row: int)
    requires
        1 <= scale,
        0 <= row,
        row + lines.len() * (8 * scale + 6) + 8 * scale < h,
    ensures
        body_ops(lines, scale, h, row).len() == nonblank(lines).len(),
        forall|k: int|
            0 <= k < nonblank(lines).len() ==> (#[trigger] body_ops(lines, scale, h, row)[k]).0
                == shown_text(nonblank(lines)[k]) && body_ops(lines, scale, h, row)[k].2
                == shown_color(nonblank(lines)[k]),
    decreases lines.len(),
{
    if lines.len() > 0 {
        let n = lines.len();
        let rest = lines.drop_first();
        assert((n - 1) * (8 * scale + 6) + (8 * scale + 6) == n * (8 * scale + 6)) by (nonlinear_arith);
        assert(0 <= (n - 1) * (8 * scale + 6)) by (nonlinear_arith)
            requires
                n >= 1,
                scale >= 1,
        ;
        let line = lines[0];
        if line.len() == 0 {
            body_draws_every_nonblank_line(rest, scale, h, row + 4 * scale);
        } else {
            let after = if is_section(line) {
                row + 4
            } else {
                row
            } + 8 * scale + 2;
            body_draws_every_nonblank_line(rest, scale, h, after);
            let b = body_ops(lines, scale, h, row);
            let rb = body_ops(rest, scale, h, after);
            let nb = nonblank(lines);
            let nr = nonblank(rest);
            assert(b == seq![b[0]] + rb);
            assert(nb == seq![line] + nr);
            assert forall|k: int| 0 <= k < nb.len() implies (#[trigger] b[k]).0 == shown_text(nb[k])
                && b[k].2 == shown_color(nb[k]) by {
                if k > 0 {
                    assert(b[k] == rb[k - 1]);
                    assert(nb[k] == nr[k - 1]);
                }
            }
        }
    }
}

/// When the buffer is tall enough for every line, a frame is the status bar, one draw per
/// line that is not blank, and the footer.
pub proof fn frame_draws_every_nonblank_line(lines: Seq<Seq<char>>, scale: int, h: int)
    requires
        1 <= scale,
        14 + lines.len() * (8 * scale + 6) + 8 * scale < h,
    ensures
        frame_ops(lines, scale, h).len() == nonblank(lines).len() + 2,
{
    body_draws_every_nonblank_line(lines, scale, h, 14);
}

/// Laying out `lines` from pen row `row` keeps every row the layout computes within
/// `usize`: the rows reached after each line, and the bottom of the next line tested
/// against the height, up to the line that ends the body.
pub open spec fn rows_fit(lines: Seq<Seq<char>>, scale: int, h: int, row: int) -> bool
    decreases lines.len(),
{
    if lines.len() == 0 {
        true
    } else {
        let line = lines[0];
        if line.len() == 0 {
            row + 4 * scale <= usize::MAX && rows_fit(lines.drop_first(), scale, h, row + 4 * scale)
        } else {
            let after = if is_section(line) {
                row + 4
            } else {
                row
            } + 8 * scale + 2;
            &&& after + 8 * scale <= usize::MAX
            &&& (after + 8 * scale >= h || rows_fit(lines.drop_first(), scale, h, after))
        }
    }
}

/// All draws of a frame: the status bar, the body from pixel row 14, the footer.
pub open spec fn frame_ops(lines: Seq<Seq<char>>, scale: int, h: int) -> Seq<DrawOp> {
    seq![(status_text(), 2 * scale, ACCENT)] + body_ops(lines, scale, h, 14) + seq![
        (footer_text(), h - 8 * scale - 4, FOOTER),
    ]
}

/// The buffer after performing `ops` in order, each from pen column `col`.
pub open spec fn apply_ops(
    buf: Seq<u32>,
    w: int,
    font: Seq<u8>,
    col: int,
    scale: int,
    ops: Seq<DrawOp>,
) -> Seq<u32>
    decreases ops.len(),
{
    if ops.len() == 0 {
        buf
    } else {
        let op = ops.last();
        painted(apply_ops(buf, w, font, col, scale, ops.drop_last()), w, font, op.0, col, op.1, scale, op.2)
    }
}

/// A `w`-by-`h` buffer filled with the background colour.
pub open spec fn blank(w: int, h: int) -> Seq<u32> {
    Seq::new((w * h) as nat, |i: int| BG)
}

/// The frame drawn for `lines` in a `w`-by-`h` buffer at `scale`.
pub open spec fn frame(w: int, h: int, scale: int, font: Seq<u8>, lines: Seq<Seq<char>>) -> Seq<u32> {
    apply_ops(blank(w, h), w, font, 2 * scale, scale, frame_ops(lines, scale, h))
}

/// The scale `resize` picks for a window `width` pixels wide: about 48 columns of text,
/// and at least 1.
pub open spec fn scale_for(width: int) -> int {
    if width / (TARGET_WIDTH as int) >= 1 {
        width / (TARGET_WIDTH as int)
    } else {
        1
    }
}

/// At the scale `resize` picks, 48 columns of glyphs fit across a window at least 240
/// pixels wide, and 49 columns of the next scale up would not.
pub proof fn scale_fits_48_columns(width: int)
    requires
        width >= 240,
    ensures
        48 * 5 * scale_for(width) <= width < 48 * 5 * (scale_for(width) + 1),
{
    vstd::arithmetic::div_mod::lemma_fundamental_div_mod(width, 240);
}

pub proof fn lemma_apply_push(
    buf: Seq<u32>,
    w: int,
    font: Seq<u8>,
    col: int,
    scale: int,
    ops: Seq<DrawOp>,
    op: DrawOp,
)
    ensures
        apply_ops(buf, w, font, col, scale, ops.push(op)) == painted(
            apply_ops(buf, w, font, col, scale, ops),
            w,
            font,
            op.0,
            col,
            op.1,
            scale,
            op.2,
        ),
{
    assert(ops.push(op).drop_last() =~= ops);
}

pub proof fn lemma_apply_len(buf: Seq<u32>, w: int, font: Seq<u8>, col: int, scale: int, ops: Seq<DrawOp>)
    ensures
        apply_ops(buf, w, font, col, scale, ops).len() == buf.len(),
    decreases ops.len(),
{
    if ops.len() > 0 {
        lemma_apply_len(buf, w, font, col, scale, ops.drop_last());
    }
}

/// Byte `k` (0 to 3) of the four a window pixel takes, for the colour `px`: the colour's
/// bytes from least to most significant.
pub open spec fn channel(px: u32, k: int) -> u8 {
    if k == 0 {
        (px >> 0u32) as u8
    } else if k == 1 {
        (px >> 8u32) as u8
    } else if k == 2 {
        (px >> 16u32) as u8
    } else {
        (px >> 24u32) as u8
    }
}

/// The last of the first `rows` rows whose copied bytes, `span` of them from
/// `row * pitch`, include byte `j`; -1 when none does.
pub open spec fn last_row_at(j: int, rows: int, pitch: int, span: int) -> int
    decreases rows,
{
    if rows <= 0 {
        -1
    } else if (rows - 1) * pitch <= j < (rows - 1) * pitch + span {
        rows - 1
    } else {
        last_row_at(j, rows - 1, pitch, span)
    }
}

/// The window bytes `dst` after copying the top-left `cols`-by-`rows` pixels of `src`
/// (`w` pixels per row) into it, four bytes per pixel, `pitch` bytes per window row,
/// rows in order so that a later row's bytes win where rows overlap.
pub open spec fn blitted(dst: Seq<u8>, src: Seq<u32>, w: int, rows: int, cols: int, pitch: int) -> Seq<u8> {
    Seq::new(
        dst.len(),
        |j: int|
            {
                let y = last_row_at(j, rows, pitch, 4 * cols);
                if y < 0 {
                    dst[j]
                } else {
                    channel(src[y * w + (j - y * pitch) / 4], (j - y * pitch) % 4)
                }
            },
    )
}

pub open spec fn min(a: int, b: int) -> int {
    if a < b {
        a
    } else {
        b
    }
}

/// The colours a frame is drawn with.
pub open spec fn in_palette(c: u32) -> bool {
    c == BG || c == FG || c == ACCENT || c == FOOTER
}

/// Drawing text leaves each pixel as it was or turns it to the drawing colour.
pub proof fn paint_only_uses_color(
    buf: Seq<u32>,
    w: int,
    font: Seq<u8>,
    text: Seq<char>,
    col: int,
    row: int,
    scale: int,
    color: u32,
    i: int,
)
    requires
        0 <= i < buf.len(),
    ensures
        painted(buf, w, font, text, col, row, scale, color)[i] == buf[i]
            || painted(buf, w, font, text, col, row, scale, color)[i] == color,
{
}

/// Drawing the same text twice in the same place leaves the same pixels as drawing it once.
pub proof fn paint_is_idempotent(
    buf: Seq<u32>,
    w: int,
    font: Seq<u8>,
    text: Seq<char>,
    col: int,
    row: int,
    scale: int,
    color: u32,
)
    ensures
        painted(painted(buf, w, font, text, col, row, scale, color), w, font, text, col, row, scale, color)
            == painted(buf, w, font, text, col, row, scale, color),
{
    assert(painted(painted(buf, w, font, text, col, row, scale, color), w, font, text, col, row, scale, color)
        =~= painted(buf, w, font, text, col, row, scale, color));
}

/// Text drawn with the pen at row `row` touches only the band of rows
/// `row .. row + 8 * scale`: every pixel above or below it keeps its colour.
pub proof fn paint_stays_in_line_band(
    buf: Seq<u32>,
    w: int,
    font: Seq<u8>,
    text: Seq<char>,
    col: int,
    row: int,
    scale: int,
    color: u32,
    i: int,
)
    requires
        0 < w,
        1 <= scale,
        0 <= i < buf.len(),
        i / w < row || i / w >= row + 8 * scale,
    ensures
        painted(buf, w, font, text, col, row, scale, color)[i] == buf[i],
{
    let y = i / w;
    if crate::raster::text_covers(font, text, col, row, scale, i % w, y) {
        let k = choose|k: int|
            0 <= k < text.len() && #[trigger] crate::raster::char_covers(
                font,
                text,
                col,
                row,
                scale,
                k,
                i % w,
                y,
            );
        let gy = (y - row) / scale;
        assert(gy < 8);
        vstd::arithmetic::div_mod::lemma_fundamental_div_mod(y - row, scale);
        assert(y - row == scale * gy + (y - row) % scale);
        assert(scale * gy <= scale * 7) by (nonlinear_arith)
            requires
                gy < 8,
                scale >= 1,
        ;
    }
}

/// Drawing one printable character inks, in each square of its 5-by-8 grid, exactly
/// what the glyph's row byte says for that column (column 0 being the byte's 16s bit),
/// and leaves the other squares of the grid as they were: the glyph is not mirrored.
pub proof fn draw_char_follows_row_bits(
    buf: Seq<u32>,
    w: int,
    font: Seq<u8>,
    c: char,
    col: int,
    row: int,
    scale: int,
    color: u32,
    gx: int,
    gy: int,
    i: int,
)
    requires
        0 < w,
        1 <= scale,
        32 <= c as u32 && (c as u32) < 127,
        0 <= gx < 5,
        0 <= gy < 8,
        ((c as u32) - 32) * 8 + gy < font.len(),
        0 <= i < buf.len(),
        col + gx * scale <= i % w < col + gx * scale + scale,
        row + gy * scale <= i / w < row + gy * scale + scale,
    ensures
        painted(buf, w, font, seq![c], col, row, scale, color)[i] == if crate::raster::row_byte_has_ink(
            font,
            (c as u32) - 32,
            gx,
            gy,
        ) {
            color
        } else {
            buf[i]
        },
{
    let t = seq![c];
    let x = i % w;
    let y = i / w;
    let idx = (c as u32) - 32;
    assert(char_x(t, col, scale, 0) == col);
    assert(crate::raster::glyph_index(c) == idx);
    crate::raster::glyph_ink_follows_row_bits(font, idx as int, col, row, scale, gx, gy, x, y);
    if char_covers(font, t, col, row, scale, 0, x, y) {
        assert(text_covers(font, t, col, row, scale, x, y));
    }
    if text_covers(font, t, col, row, scale, x, y) {
        let k = choose|k: int| 0 <= k < t.len() && #[trigger] char_covers(font, t, col, row, scale, k, x, y);
        assert(k == 0);
    }
}

/// In text of printable ASCII characters, character `k` is drawn `6 * scale * k` pixels
/// right of the pen: each glyph is five font pixels wide and followed by one blank column.
pub proof fn printable_chars_advance_six_columns(text: Seq<char>, col: int, scale: int, k: int)
    requires
        0 <= k <= text.len(),
        forall|j: int| 0 <= j < text.len() ==> 32 <= ((#[trigger] text[j]) as u32) && (text[j] as u32) < 127,
    ensures
        char_x(text, col, scale, k) == col + 6 * scale * k,
    decreases k,
{
    if k > 0 {
        printable_chars_advance_six_columns(text, col, scale, k - 1);
        let c = text[k - 1];
        assert(32 <= (c as u32) && (c as u32) < 127);
        assert(crate::raster::glyph_index(text[k - 1]) < 95);
        assert(crate::raster::advance(text[k - 1], scale) == 6 * scale);
        assert(6 * scale * (k - 1) + 6 * scale == 6 * scale * k) by (nonlinear_arith);
    } else {
        assert(6 * scale * k == 0) by (nonlinear_arith)
            requires
                k == 0,
        ;
    }
}

proof fn lemma_char_x_upper(text: Seq<char>, col: int, scale: int, k: int)
    requires
        0 <= scale,
        0 <= k,
    ensures
        char_x(text, col, scale, k) <= col + 6 * scale * k,
    decreases k,
{
    if k > 0 {
        lemma_char_x_upper(text, col, scale, k - 1);
        assert(6 * scale * (k - 1) + 6 * scale == 6 * scale * k) by (nonlinear_arith);
    }
}

/// Every pixel that drawing `text` changes lies in its box: the `8 * scale` rows from the
/// pen row, and the columns from the pen column up to `6 * scale` per character.
pub proof fn paint_stays_in_text_box(
    buf: Seq<u32>,
    w: int,
    font: Seq<u8>,
    text: Seq<char>,
    col: int,
    row: int,
    scale: int,
    color: u32,
    i: int,
)
    requires
        0 < w,
        1 <= scale,
        0 <= i < buf.len(),
        painted(buf, w, font, text, col, row, scale, color)[i] != buf[i],
    ensures
        col <= i % w < col + 6 * scale * text.len(),
        row <= i / w < row + 8 * scale,
{
    let x = i % w;
    let y = i / w;
    if y < row || y >= row + 8 * scale {
        paint_stays_in_line_band(buf, w, font, text, col, row, scale, color, i);
    }
    assert(text_covers(font, text, col, row, scale, x, y));
    let k = choose|k: int|
        0 <= k < text.len() && #[trigger] char_covers(font, text, col, row, scale, k, x, y);
    let cx = char_x(text, col, scale, k);
    lemma_char_x_monotone(text, col, scale, 0, k);
    lemma_char_x_upper(text, col, scale, k);
    let gx = (x - cx) / scale;
    assert(gx < 5);
    vstd::arithmetic::div_mod::lemma_fundamental_div_mod(x - cx, scale);
    assert(x - cx < 5 * scale) by (nonlinear_arith)
        requires
            x - cx == scale * gx + (x - cx) % scale,
            (x - cx) % scale < scale,
            gx <= 4,
    ;
    assert(6 * scale * k + 5 * scale < 6 * scale * text.len()) by (nonlinear_arith)
        requires
            k < text.len(),
            scale >= 1,
    ;
}

proof fn lemma_apply_palette(
    buf: Seq<u32>,
    w: int,
    font: Seq<u8>,
    col: int,
    scale: int,
    ops: Seq<DrawOp>,
    i: int,
)
    requires
        0 <= i < buf.len(),
        forall|j: int| 0 <= j < buf.len() ==> in_palette(#[trigger] buf[j]),
        forall|k: int| 0 <= k < ops.len() ==> in_palette(#[trigger] ops[k].2),
    ensures
        in_palette(apply_ops(buf, w, font, col, scale, ops)[i]),
    decreases ops.len(),
{
    if ops.len() > 0 {
        let rest = ops.drop_last();
        assert forall|k: int| 0 <= k < rest.len() implies in_palette(#[trigger] rest[k].2) by {
            assert(rest[k] == ops[k]);
        }
        lemma_apply_palette(buf, w, font, col, scale, rest, i);
        lemma_apply_len(buf, w, font, col, scale, rest);
        assert(in_palette(ops[ops.len() - 1].2));
    }
}

proof fn lemma_body_colors(lines: Seq<Seq<char>>, scale: int, h: int, row: int)
    ensures
        forall|k: int|
            0 <= k < body_ops(lines, scale, h, row).len() ==> (#[trigger] body_ops(
                lines,
                scale,
                h,
                row,
            )[k]).2 == FG || body_ops(lines, scale, h, row)[k].2 == ACCENT,
    decreases lines.len(),
{
    if lines.len() > 0 {
        let line = lines[0];
        if line.len() == 0 {
            lemma_body_colors(lines.drop_first(), scale, h, row + 4 * scale);
            assert(body_ops(lines, scale, h, row) == body_ops(lines.drop_first(), scale, h, row + 4
                * scale));
        } else {
            let after = if is_section(line) {
                row + 4
            } else {
                row
            } + 8 * scale + 2;
            lemma_body_colors(lines.drop_first(), scale, h, after);
            let b = body_ops(lines, scale, h, row);
            let rest = body_ops(lines.drop_first(), scale, h, after);
            assert forall|k: int| 0 <= k < b.len() implies (#[trigger] b[k]).2 == FG || b[k].2
                == ACCENT by {
                if k > 0 {
                    assert(b[k] == rest[k - 1]);
                } else {
                    assert(b[0].2 == if is_section(line) {
                        ACCENT
                    } else {
                        FG
                    });
                }
            }
        }
    }
}

/// Every pixel of a frame is the background, text, accent or footer colour.
pub proof fn frame_uses_palette(
    w: int,
    h: int,
    scale: int,
    font: Seq<u8>,
    lines: Seq<Seq<char>>,
    i: int,
)
    requires
        0 <= w,
        0 <= h,
        0 <= i < w * h,
    ensures
        in_palette(frame(w, h, scale, font, lines)[i]),
{
    let ops = frame_ops(lines, scale, h);
    lemma_body_colors(lines, scale, h, 14);
    let body = body_ops(lines, scale, h, 14);
    assert forall|k: int| 0 <= k < ops.len() implies in_palette(#[trigger] ops[k].2) by {
        if 1 <= k < ops.len() - 1 {
            assert(ops[k] == body[k - 1]);
        }
    }
    lemma_apply_palette(blank(w, h), w, font, 2 * scale, scale, ops, i);
}

/// A window row copied in full: with rows `pitch >= 4 * cols` bytes apart, the byte
/// `k` of pixel `(x, y)` in the window is byte `k` of that pixel's colour.
pub proof fn write_rgba_reads_back(
    dst: Seq<u8>,
    src: Seq<u32>,
    w: int,
    rows: int,
    cols: int,
    pitch: int,
    x: int,
    y: int,
    k: int,
)
    requires
        0 <= y < rows,
        0 <= x < cols,
        0 <= k < 4,
        4 * cols <= pitch,
        (rows - 1) * pitch + 4 * cols <= dst.len(),
    ensures
        blitted(dst, src, w, rows, cols, pitch)[y * pitch + 4 * x + k] == channel(src[y * w + x], k),
{
    let j = y * pitch + 4 * x + k;
    lemma_last_row(j, rows, pitch, 4 * cols, y);
    assert(y * pitch <= (rows - 1) * pitch) by (nonlinear_arith)
        requires
            y < rows,
            0 <= pitch,
    ;
    lemma_fundamental_div_mod_converse(4 * x + k, 4, x, k);
}

/// Window byte `j` lies in the part copied from row `y`.
pub open spec fn in_row_copy(j: int, y: int, cols: int, pitch: int) -> bool {
    y * pitch <= j < y * pitch + 4 * cols
}

proof fn lemma_last_row_range(j: int, rows: int, pitch: int, span: int)
    ensures
        last_row_at(j, rows, pitch, span) >= 0 ==> last_row_at(j, rows, pitch, span) < rows
            && last_row_at(j, rows, pitch, span) * pitch <= j < last_row_at(j, rows, pitch, span)
            * pitch + span,
    decreases rows,
{
    if rows > 0 {
        lemma_last_row_range(j, rows - 1, pitch, span);
    }
}

/// The copy into the window changes only bytes of the copied part: each byte it changes
/// lies in the `4 * cols` bytes that start some copied row.
pub proof fn write_rgba_changes_only_copied_bytes(
    dst: Seq<u8>,
    src: Seq<u32>,
    w: int,
    rows: int,
    cols: int,
    pitch: int,
    j: int,
)
    requires
        0 <= j < dst.len(),
        blitted(dst, src, w, rows, cols, pitch)[j] != dst[j],
    ensures
        exists|y: int| 0 <= y < rows && #[trigger] in_row_copy(j, y, cols, pitch),
{
    let y = last_row_at(j, rows, pitch, 4 * cols);
    lemma_last_row_range(j, rows, pitch, 4 * cols);
    assert(y >= 0);
    assert(in_row_copy(j, y, cols, pitch));
}

proof fn lemma_last_row(j: int, rows: int, pitch: int, span: int, y: int)
    requires
        0 <= y < rows,
        span <= pitch,
        y * pitch <= j < y * pitch + span,
    ensures
        last_row_at(j, rows, pitch, span) == y,
    decreases rows,
{
    if rows - 1 > y {
        assert((rows - 1) * pitch >= (y + 1) * pitch) by (nonlinear_arith)
            requires
                rows - 1 >= y + 1,
                0 <= span <= pitch,
        ;
        assert((y + 1) * pitch == y * pitch + pitch) by (nonlinear_arith);
        lemma_last_row(j, rows - 1, pitch, span, y);
    }
}

pub struct TextRenderer {
    buf: Vec<u32>,
    w: usize,
    h: usize,
    scale: usize,
    col: usize,
    row: usize,
    font: Vec<u8>,
}

impl TextRenderer {
    /// The framebuffer, row-major, `width()` pixels per row.
    pub closed spec fn pixels(&self) -> Seq<u32> {
        self.buf@
    }

    pub closed spec fn width(&self) -> int {
        self.w as int
    }

    pub closed spec fn height(&self) -> int {
        self.h as int
    }

    /// Size of one font pixel, in buffer pixels.
    pub closed spec fn scale(&self) -> int {
        self.scale as int
    }

    /// The pen: where the next `draw_str` starts.
    pub closed spec fn pen_col(&self) -> int {
        self.col as int
    }

    pub closed spec fn pen_row(&self) -> int {
        self.row as int
    }

    /// The font data: eight bytes per glyph, one per row, bit 4 the leftmost pixel.
    pub closed spec fn glyphs(&self) -> Seq<u8> {
        self.font@
    }

    /// The buffer holds `width * height` pixels, and that many `u32`s fit in memory.
    pub closed spec fn wf(&self) -> bool {
        &&& self.buf@.len() == self.w * self.h
        &&& self.w * self.h * 4 <= isize::MAX
        &&& 1 <= self.scale
        &&& self.scale <= self.w / 240 + 2
    }

    proof fn lemma_wf_bounds(&self)
        requires
            self.wf(),
        ensures
            self.w * self.h <= usize::MAX,
            0 < self.w * self.h ==> self.w + 6 * self.scale <= usize::MAX,
            0 < self.w * self.h ==> self.h + 8 * self.scale <= usize::MAX,
    {
        let w = self.w as int;
        let h = self.h as int;
        if 0 < w * h {
            assert(w + h <= w * h + 1) by (nonlinear_arith)
                requires
                    0 < w * h,
                    0 <= w,
                    0 <= h,
            ;
        }
    }

    /// What callers may rely on of any renderer: sizes, scale and pen are never negative;
    /// a well-formed one has a scale of at least 1 and `width * height` pixels.
    pub proof fn lemma_ranges(&self)
        ensures
            0 <= self.width(),
            0 <= self.height(),
            0 <= self.scale(),
            0 <= self.pen_col(),
            0 <= self.pen_row(),
            self.wf() ==> 1 <= self.scale(),
            self.wf() ==> self.pixels().len() == self.width() * self.height(),
    {
    }

    /// The state `resize(width, height)` leaves, starting from `self`: a well-formed
    /// `width`-by-`height` buffer all in the background colour, the scale for `width`,
    /// the pen at the top-left margin, and the font kept.
    pub open spec fn resized(self, width: usize, height: usize, new: Self) -> bool {
        &&& new.wf()
        &&& new.width() == width
        &&& new.height() == height
        &&& new.pixels() == blank(width as int, height as int)
        &&& new.scale() == scale_for(width as int)
        &&& new.pen_col() == 2 * new.scale()
        &&& new.pen_row() == 2 * new.scale()
        &&& new.glyphs() == self.glyphs()
    }

    /// The state `render` leaves for `lines`, starting from `self`: the frame for its
    /// size, scale and font, the pen at the footer, everything else kept.
    pub open spec fn rendered(self, lines: Seq<Seq<char>>, new: Self) -> bool {
        &&& new.wf()
        &&& new.pixels() == frame(self.width(), self.height(), self.scale(), self.glyphs(), lines)
        &&& new.width() == self.width()
        &&& new.height() == self.height()
        &&& new.scale() == self.scale()
        &&& new.glyphs() == self.glyphs()
        &&& new.pen_col() == 2 * self.scale()
        &&& new.pen_row() == self.height() - 8 * self.scale() - 4
    }

    /// Resizing forgets the old state: two renderers resized alike end with the same
    /// pixels, size, scale and pen, whatever they held before.
    pub proof fn resize_forgets_old_state(a: Self, b: Self, a2: Self, b2: Self, width: usize, height: usize)
        requires
            a.resized(width, height, a2),
            b.resized(width, height, b2),
        ensures
            a2.pixels() == b2.pixels(),
            a2.width() == b2.width(),
            a2.height() == b2.height(),
            a2.scale() == b2.scale(),
            a2.pen_col() == b2.pen_col(),
            a2.pen_row() == b2.pen_row(),
    {
    }

    /// Resizing twice to the same size leaves the same state as resizing once.
    pub proof fn resize_twice_is_once(a: Self, a2: Self, a3: Self, width: usize, height: usize)
        requires
            a.resized(width, height, a2),
            a2.resized(width, height, a3),
        ensures
            a3.pixels() == a2.pixels(),
            a3.width() == a2.width(),
            a3.height() == a2.height(),
            a3.scale() == a2.scale(),
            a3.pen_col() == a2.pen_col(),
            a3.pen_row() == a2.pen_row(),
            a3.glyphs() == a2.glyphs(),
    {
    }

    /// A frame depends only on the size, scale, font and lines: two renderers alike in
    /// those end with the same pixels and pen, whatever pixels and pen they had before.
    pub proof fn render_forgets_old_frame(a: Self, b: Self, a2: Self, b2: Self, lines: Seq<Seq<char>>)
        requires
            a.width() == b.width(),
            a.height() == b.height(),
            a.scale() == b.scale(),
            a.glyphs() == b.glyphs(),
            a.rendered(lines, a2),
            b.rendered(lines, b2),
        ensures
            a2.pixels() == b2.pixels(),
            a2.pen_col() == b2.pen_col(),
            a2.pen_row() == b2.pen_row(),
    {
    }

    /// Rendering the same lines twice gives the same picture and pen as rendering once.
    pub proof fn render_twice_is_once(a: Self, a2: Self, a3: Self, lines: Seq<Seq<char>>)
        requires
            a.rendered(lines, a2),
            a2.rendered(lines, a3),
        ensures
            a3.pixels() == a2.pixels(),
            a3.pen_col() == a2.pen_col(),
            a3.pen_row() == a2.pen_row(),
    {
    }

    /// An empty renderer: no pixels, no font, scale 2. It holds no font until `set_font`
    /// installs one: until then every draw paints nothing.
    pub fn new() -> (r: Self)
        ensures
            r.wf(),
            r.pixels() == Seq::<u32>::empty(),
            r.width() == 0,
            r.height() == 0,
            r.scale() == 2,
            r.pen_col() == 0,
            r.pen_row() == 0,
            r.glyphs() == Seq::<u8>::empty(),
    {
        Self { buf: Vec::new(), w: 0, h: 0, scale: 2, col: 0, row: 0, font: Vec::new() }
    }

    /// Installs the bitmap font used by later draws.
    ///
    /// The font is eight bytes per glyph for ASCII 32 to 126.
    pub fn set_font(&mut self, font: Vec<u8>)
        ensures
            final(self).glyphs() == font@,
            final(self).pixels() == old(self).pixels(),
            final(self).width() == old(self).width(),
            final(self).height() == old(self).height(),
            final(self).scale() == old(self).scale(),
            final(self).pen_col() == old(self).pen_col(),
            final(self).pen_row() == old(self).pen_row(),
            old(self).wf() ==> final(self).wf(),
    {
        self.font = font;
    }

    /// Makes the buffer `width` by `height`, all background, picks the scale so that about
    /// 48 columns of text fit across, and puts the pen at the top-left margin.
    pub fn resize(&mut self, width: usize, height: usize)
        requires
            width * height * 4 <= isize::MAX,
        ensures
            old(self).resized(width, height, *final(self)),
    {
        self.w = width;
        self.h = height;
        let n = width * height;
        let mut buf: Vec<u32> = Vec::new();
        let mut i: usize = 0;
        while i < n
            invariant
                i <= n,
                buf@ == Seq::new(i as nat, |j: int| BG),
            decreases n - i,
        {
            buf.push(BG);
            i += 1;
        }
        assert(buf@ =~= blank(width as int, height as int));
        self.buf = buf;
        // Auto-scale: target ~48 chars wide
        let fit = width / TARGET_WIDTH;
        self.scale = if fit >= 1 {
            fit
        } else {
            1
        };
        self.col = 2 * self.scale;
        self.row = 2 * self.scale;
    }

    fn draw_chars(&mut self, text: &[char], color: u32)
        requires
            old(self).wf(),
        ensures
            final(self).wf(),
            final(self).pixels() == painted(
                old(self).pixels(),
                old(self).width(),
                old(self).glyphs(),
                text@,
                old(self).pen_col(),
                old(self).pen_row(),
                old(self).scale(),
                color,
            ),
            final(self).width() == old(self).width(),
            final(self).height() == old(self).height(),
            final(self).scale() == old(self).scale(),
            final(self).pen_col() == old(self).pen_col(),
            final(self).pen_row() == old(self).pen_row(),
            final(self).glyphs() == old(self).glyphs(),
    {
        proof {
            self.lemma_wf_bounds();
        }
        paint_text(
            &mut self.buf,
            self.w,
            self.h,
            self.font.as_slice(),
            text,
            self.col,
            self.row,
            self.scale,
            color,
        );
    }

    /// Draws `text` in `color` with the pen at `(pen_col, pen_row)`; no background is
    /// painted, and the pen does not move. The position and background arguments are not
    /// used.
    pub fn draw_str(&mut self, text: &str, _x: usize, _y: usize, color: u32, _bg: u32)
        requires
            old(self).wf(),
        ensures
            final(self).wf(),
            final(self).pixels() == painted(
                old(self).pixels(),
                old(self).width(),
                old(self).glyphs(),
                text@,
                old(self).pen_col(),
                old(self).pen_row(),
                old(self).scale(),
                color,
            ),
            final(self).width() == old(self).width(),
            final(self).height() == old(self).height(),
            final(self).scale() == old(self).scale(),
            final(self).pen_col() == old(self).pen_col(),
            final(self).pen_row() == old(self).pen_row(),
            final(self).glyphs() == old(self).glyphs(),
    {
        let chars = chars_of(text);
        self.draw_chars(chars.as_slice(), color);
    }

    /// Draws one frame into the buffer: background everywhere, the status bar, then
    /// `lines` from pixel row 14 until the buffer is full, then the footer `8 * scale + 4`
    /// pixels above the bottom. The pen ends at the footer.
    pub fn render(&mut self, lines: &[String])
        requires
            old(self).wf(),
            old(self).height() >= 8 * old(self).scale() + 4,
            rows_fit(line_views(lines@), old(self).scale(), old(self).height(), 14),
        ensures
            old(self).rendered(line_views(lines@), *final(self)),
    {
        let ghost w = self.w as int;
        let ghost h = self.h as int;
        let ghost sc = self.scale as int;
        let ghost font = self.font@;
        let ghost lv = line_views(lines@);
        let ghost base = blank(w, h);
        let n = self.buf.len();
        let mut j: usize = 0;
        while j < n
            invariant
                self.wf(),
                self.w == w,
                self.h == h,
                self.scale == sc,
                self.font@ == font,
                n == self.buf@.len(),
                j <= n,
                forall|k: int| 0 <= k < j ==> self.buf@[k] == BG,
            decreases n - j,
        {
            self.buf.set(j, BG);
            j += 1;
        }
        assert(self.buf@ =~= base);
        self.col = 2 * self.scale;
        self.row = 2 * self.scale;

        // Status bar
        let status = chars_of("SysInfo Dashboard  v1.0.0-rc1");
        self.draw_chars(status.as_slice(), ACCENT);
        let ghost status_op: DrawOp = (status_text(), 2 * sc, ACCENT);
        proof {
            lemma_apply_push(base, w, font, 2 * sc, sc, Seq::empty(), status_op);
            assert(Seq::<DrawOp>::empty().push(status_op) =~= seq![status_op]);
        }
        self.row = 14;

        let ghost mut body: Seq<DrawOp> = Seq::empty();
        assert(lv.skip(0) =~= lv);
        assert(body + body_ops(lv, sc, h, 14) =~= body_ops(lv, sc, h, 14));
        let mut i: usize = 0;
        while i < lines.len()
            invariant_except_break
                body_ops(lv, sc, h, 14) == body + body_ops(lv.skip(i as int), sc, h, self.row as int),
                rows_fit(lv.skip(i as int), sc, h, self.row as int),
            invariant
                self.wf(),
                self.w == w,
                self.h == h,
                self.scale == sc,
                self.font@ == font,
                self.col == 2 * sc,
                h >= 8 * sc + 4,
                i <= lines@.len(),
                lv == line_views(lines@),
                lv.len() == lines@.len(),
                self.buf@ == apply_ops(base, w, font, 2 * sc, sc, seq![status_op] + body),
            ensures
                body == body_ops(lv, sc, h, 14),
            decreases lines@.len() - i,
        {
            let line = chars_of(lines[i].as_str());
            let ghost rest = lv.skip(i as int);
            assert(rest[0] == line@);
            assert(rest.drop_first() =~= lv.skip(i + 1));
            if line.len() == 0 {
                self.row = self.row + 8 * self.scale / 2;
            } else {
                let ghost op: DrawOp;
                let is_header = line.len() >= 2 && line[0] == '─' && line[1] == '─';
                if is_header {
                    // Section header
                    let rules = trim_chars(line.as_slice(), &Pat::Exactly('─'));
                    let clean = trim_chars(rules.as_slice(), &Pat::Whitespace);
                    proof {
                        op = (section_title(line@), self.row as int, ACCENT);
                    }
                    self.draw_chars(clean.as_slice(), ACCENT);
                    self.row = self.row + 4;
                } else {
                    // Key: value lines and anything else
                    proof {
                        op = (line@, self.row as int, FG);
                    }
                    self.draw_chars(line.as_slice(), FG);
                }
                proof {
                    lemma_apply_push(base, w, font, 2 * sc, sc, seq![status_op] + body, op);
                    assert((seq![status_op] + body).push(op) =~= seq![status_op] + body.push(op));
                    assert(seq![op] + body_ops(lv.skip(i + 1), sc, h, self.row + 8 * sc + 2) =~= seq![op].add(body_ops(lv.skip(i + 1), sc, h, self.row + 8 * sc + 2)));
                    body = body.push(op);
                }
                self.row = self.row + 8 * self.scale + 2;
                if self.row + 8 * self.scale >= self.h {
                    assert(body_ops(lv, sc, h, 14) =~= body);
                    break;
                }
                assert(body_ops(lv, sc, h, 14) =~= body + body_ops(lv.skip(i + 1), sc, h, self.row as int));
            }
            i += 1;
        }
        proof {
            if i == lines.len() {
                assert(lv.skip(i as int) =~= Seq::<Seq<char>>::empty());
                assert(body + Seq::<DrawOp>::empty() =~= body);
            }
        }

        // Footer
        self.row = self.h - 8 * self.scale - 4;
        let footer = chars_of("  Rust Native  |  Swipe to refresh");
        self.draw_chars(footer.as_slice(), FOOTER);
        proof {
            let footer_op: DrawOp = (footer_text(), h - 8 * sc - 4, FOOTER);
            lemma_apply_push(base, w, font, 2 * sc, sc, seq![status_op] + body, footer_op);
            assert((seq![status_op] + body).push(footer_op) =~= frame_ops(lv, sc, h));
        }
    }

    /// Copies the frame into a window buffer `width` by `height` pixels with `pitch` bytes
    /// per row: the overlapping top-left part, each pixel as its four colour bytes, least
    /// significant first. Bytes outside that part are left as they were.
    pub fn write_rgba(&self, dst: &mut Vec<u8>, width: usize, height: usize, pitch: usize)
        requires
            self.wf(),
            min(height as int, self.height()) == 0 || min(width as int, self.width()) == 0
                || (min(height as int, self.height()) - 1) * pitch + 4 * min(
                width as int,
                self.width(),
            ) <= old(dst)@.len(),
        ensures
            final(dst)@ == blitted(
                old(dst)@,
                self.pixels(),
                self.width(),
                min(height as int, self.height()),
                min(width as int, self.width()),
                pitch as int,
            ),
    {
        let ghost orig = dst@;
        let dst_len = dst.len();
        let rows = if height < self.h {
            height
        } else {
            self.h
        };
        let cols = if width < self.w {
            width
        } else {
            self.w
        };
        let ghost span = 4 * cols as int;
        let ghost target = blitted(orig, self.buf@, self.w as int, rows as int, cols as int, pitch as int);
        let mut y: usize = 0;
        while y < rows
            invariant
                self.wf(),
                rows <= self.h,
                rows <= height,
                cols <= self.w,
                cols <= width,
                span == 4 * cols,
                rows == 0 || cols == 0 || (rows - 1) * pitch + 4 * cols <= orig.len(),
                dst_len == orig.len(),
                dst@.len() == orig.len(),
                y <= rows,
                forall|j: int|
                    0 <= j < orig.len() ==> #[trigger] dst@[j] == {
                        let r = last_row_at(j, y as int, pitch as int, span);
                        if r < 0 {
                            orig[j]
                        } else {
                            channel(
                                self.buf@[r * self.w + (j - r * pitch) / 4],
                                (j - r * pitch) % 4,
                            )
                        }
                    },
            decreases rows - y,
        {
            proof {
                assert(y * self.w <= (self.h - 1) * self.w) by (nonlinear_arith)
                    requires
                        y < rows <= self.h,
                ;
                if cols > 0 {
                    assert(y * pitch <= (rows - 1) * pitch) by (nonlinear_arith)
                        requires
                            y < rows,
                    ;
                }
                assert(self.w * self.h <= usize::MAX) by (nonlinear_arith)
                    requires
                        self.w * self.h * 4 <= isize::MAX,
                ;
                assert(0 <= (self.h - 1) * self.w) by (nonlinear_arith)
                    requires
                        y < self.h,
                ;
                assert((self.h - 1) * self.w + self.w == self.w * self.h) by (nonlinear_arith);
            }
            let src_row = y * self.w;
            let dst_off = if cols > 0 {
                y * pitch
            } else {
                0
            };
            let ghost before = dst@;
            let mut x: usize = 0;
            while x < cols
                invariant
                    self.wf(),
                    rows <= self.h,
                    cols <= self.w,
                    span == 4 * cols,
                    y < rows,
                    src_row == y * self.w,
                    cols > 0 ==> dst_off == y * pitch,
                    cols > 0 ==> y * pitch <= (rows - 1) * pitch,
                    rows == 0 || cols == 0 || (rows - 1) * pitch + 4 * cols <= orig.len(),
                    src_row + self.w <= self.w * self.h,
                    dst_len == orig.len(),
                    dst@.len() == orig.len(),
                    before.len() == orig.len(),
                    x <= cols,
                    forall|j: int|
                        0 <= j < orig.len() ==> #[trigger] dst@[j] == if dst_off <= j < dst_off
                            + 4 * x {
                            channel(self.buf@[y * self.w + (j - y * pitch) / 4], (j - y * pitch) % 4)
                        } else {
                            before[j]
                        },
                decreases cols - x,
            {
                let px = self.buf[src_row + x];
                let base = dst_off + x * 4;
                let ghost prev = dst@;
                dst.set(base + 0, (px >> 0) as u8);  // R
                dst.set(base + 1, (px >> 8) as u8);  // G
                dst.set(base + 2, (px >> 16) as u8);  // B
                dst.set(base + 3, (px >> 24) as u8);  // A
                assert forall|j: int| 0 <= j < orig.len() implies #[trigger] dst@[j] == if dst_off
                    <= j < dst_off + 4 * (x + 1) {
                    channel(self.buf@[y * self.w + (j - y * pitch) / 4], (j - y * pitch) % 4)
                } else {
                    before[j]
                } by {
                    if base <= j < base + 4 {
                        lemma_fundamental_div_mod_converse(j - y * pitch, 4, x as int, j - base);
                    } else {
                        assert(dst@[j] == prev[j]);
                    }
                }
                x += 1;
            }
            assert forall|j: int| 0 <= j < orig.len() implies #[trigger] dst@[j] == {
                let r = last_row_at(j, y + 1, pitch as int, span);
                if r < 0 {
                    orig[j]
                } else {
                    channel(self.buf@[r * self.w + (j - r * pitch) / 4], (j - r * pitch) % 4)
                }
            } by {
                assert(before[j] == {
                    let r = last_row_at(j, y as int, pitch as int, span);
                    if r < 0 {
                        orig[j]
                    } else {
                        channel(self.buf@[r * self.w + (j - r * pitch) / 4], (j - r * pitch) % 4)
                    }
                });
            }
            y += 1;
        }
        assert(dst@ =~= target);
    }

    /// The framebuffer, row-major.
    pub fn buffer(&self) -> (b: &[u32])
        ensures
            b@ == self.pixels(),
    {
        self.buf.as_slice()
    }

    /// `(width, height)` of the framebuffer, in pixels.
    pub fn dimensions(&self) -> (r: (usize, usize))
        ensures
            r.0 == self.width(),
            r.1 == self.height(),
    {
        (self.w, self.h)
    }

    /// The size of one font pixel, in buffer pixels.
    pub fn scale_factor(&self) -> (r: usize)
        ensures
            r == self.scale(),
    {
        self.scale
    }

    /// `(column, row)` of the pen.
    pub fn pen(&self) -> (r: (usize, usize))
        ensures
            r.0 == self.pen_col(),
            r.1 == self.pen_row(),
    {
        (self.col, self.row)
    }

    /// Whether the rows of a frame of `lines` can be computed without overflow: the
    /// condition `render` needs besides the room for the footer.
    pub fn frame_fits(&self, lines: &[String]) -> (r: bool)
        requires
            self.wf(),
        ensures
            r == rows_fit(line_views(lines@), self.scale(), self.height(), 14),
    {
        let ghost lv = line_views(lines@);
        let s = self.scale;
        let h = self.h;
        let band = 8 * s;
        let mut row: usize = 14;
        assert(lv.skip(0) =~= lv);
        let mut i: usize = 0;
        while i < lines.len()
            invariant
                i <= lines@.len(),
                lv == line_views(lines@),
                s == self.scale(),
                h == self.height(),
                band == 8 * s,
                rows_fit(lv, s as int, h as int, 14) == rows_fit(lv.skip(i as int), s as int, h as int, row as int),
            decreases lines@.len() - i,
        {
            let line = chars_of(lines[i].as_str());
            assert(lv.skip(i as int)[0] == line@);
            assert(lv.skip(i as int).drop_first() =~= lv.skip(i + 1));
            if line.len() == 0 {
                match row.checked_add(band / 2) {
                    Some(r) => {
                        row = r;
                    },
                    None => {
                        return false;
                    },
                }
            } else {
                let is_header = line.len() >= 2 && line[0] == '─' && line[1] == '─';
                let lift: usize = if is_header {
                    4
                } else {
                    0
                };
                let after = match row.checked_add(lift) {
                    Some(a) => match a.checked_add(band) {
                        Some(b) => b.checked_add(2),
                        None => None,
                    },
                    None => None,
                };
                let after = match after {
                    Some(a) => a,
                    None => {
                        return false;
                    },
                };
                let bottom = match after.checked_add(band) {
                    Some(b) => b,
                    None => {
                        return false;
                    },
                };
                if bottom >= h {
                    return true;
                }
                row = after;
            }
            i += 1;
        }
        assert(lv.skip(i as int) =~= Seq::<Seq<char>>::empty());
        true
    }
}

impl Default for TextRenderer {
    /// The same empty renderer as `TextRenderer::new`: no font, so nothing is drawn until
    /// `set_font` installs one.
    fn default() -> (r: Self)
        ensures
            r.wf(),
            r.pixels() == Seq::<u32>::empty(),
            r.width() == 0,
            r.height() == 0,
            r.scale() == 2,
            r.pen_col() == 0,
            r.pen_row() == 0,
            r.glyphs() == Seq::<u8>::empty(),
    {
        Self::new()
    }
}

} // verus!
