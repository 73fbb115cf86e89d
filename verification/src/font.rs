//! A tiny bitmap font for drawing debug text into a pixel buffer.
//!
//! Each glyph is a 5-wide by 7-tall grid, stored as 7 bytes (one per row).
//! Only the low 5 bits of a row are used: bit 4 is the leftmost column and
//! bit 0 the rightmost. A set bit is a lit pixel. Only the characters the
//! inspector prints are defined; anything else, space included, is blank.
//!
//! The buffer is `width_px * height_px` pixels in row-major order. A font
//! pixel becomes a `scale` x `scale` block on screen; blocks are clipped to
//! the screen rectangle.
use vstd::arithmetic::div_mod::{lemma_fundamental_div_mod, lemma_fundamental_div_mod_converse};
use vstd::prelude::*;

verus! {

/// Width of a glyph, in font pixels.
pub const GLYPH_WIDTH: i32 = 5;

/// Height of a glyph, in font pixels.
pub const GLYPH_HEIGHT: i32 = 7;

/// The seven row bitmaps of a character; unknown characters are blank.
pub open spec fn glyph_rows(c: char) -> Seq<u8> {
    if c == '0' {
        seq![0x0Eu8, 0x11, 0x11, 0x11, 0x11, 0x11, 0x0E]
    } else if c == '1' {
        seq![0x04u8, 0x0C, 0x04, 0x04, 0x04, 0x04, 0x0E]
    } else if c == '2' {
        seq![0x0Eu8, 0x11, 0x01, 0x02, 0x04, 0x08, 0x1F]
    } else if c == '3' {
        seq![0x0Eu8, 0x11, 0x01, 0x06, 0x01, 0x11, 0x0E]
    } else if c == '4' {
        seq![0x02u8, 0x06, 0x0A, 0x12, 0x1F, 0x02, 0x02]
    } else if c == '5' {
        seq![0x1Fu8, 0x10, 0x1E, 0x01, 0x01, 0x11, 0x0E]
    } else if c == '6' {
        seq![0x0Eu8, 0x11, 0x10, 0x1E, 0x11, 0x11, 0x0E]
    } else if c == '7' {
        seq![0x1Fu8, 0x01, 0x02, 0x04, 0x08, 0x08, 0x08]
    } else if c == '8' {
        seq![0x0Eu8, 0x11, 0x11, 0x0E, 0x11, 0x11, 0x0E]
    } else if c == '9' {
        seq![0x0Eu8, 0x11, 0x11, 0x0F, 0x01, 0x11, 0x0E]
    } else if c == 'I' {
        seq![0x0Eu8, 0x04, 0x04, 0x04, 0x04, 0x04, 0x0E]
    } else if c == 'D' {
        seq![0x1Cu8, 0x12, 0x11, 0x11, 0x11, 0x12, 0x1C]
    } else if c == 'P' {
        seq![0x1Eu8, 0x11, 0x11, 0x1E, 0x10, 0x10, 0x10]
    } else if c == 'O' {
        seq![0x0Eu8, 0x11, 0x11, 0x11, 0x11, 0x11, 0x0E]
    } else if c == 'S' {
        seq![0x0Fu8, 0x10, 0x10, 0x0E, 0x01, 0x01, 0x1E]
    } else if c == 'V' {
        seq![0x11u8, 0x11, 0x11, 0x11, 0x11, 0x0A, 0x04]
    } else if c == 'E' {
        seq![0x1Fu8, 0x10, 0x10, 0x1E, 0x10, 0x10, 0x1F]
    } else if c == 'L' {
        seq![0x10u8, 0x10, 0x10, 0x10, 0x10, 0x10, 0x1F]
    } else if c == '.' {
        seq![0x00u8, 0x00, 0x00, 0x00, 0x00, 0x06, 0x06]
    } else if c == ',' {
        seq![0x00u8, 0x00, 0x00, 0x00, 0x06, 0x06, 0x08]
    } else if c == '-' {
        seq![0x00u8, 0x00, 0x00, 0x0E, 0x00, 0x00, 0x00]
    } else {
        seq![0x00u8, 0x00, 0x00, 0x00, 0x00, 0x00, 0x00]
    }
}

/// Whether the font pixel at (`row`, `col`) of character `c` is lit.
pub open spec fn lit(c: char, row: int, col: int) -> bool {
    &&& 0 <= row < 7
    &&& 0 <= col < 5
    &&& (glyph_rows(c)[row] >> ((4 - col) as u8)) & 1u8 == 1u8
}

/// Whether buffer index `i` is a pixel of the screen. A dimension that does
/// not fit in an `i32` leaves no drawable pixel at all.
pub open spec fn on_screen(width_px: u32, height_px: u32, i: int) -> bool {
    &&& width_px <= i32::MAX
    &&& height_px <= i32::MAX
    &&& 0 <= i < width_px * height_px
}

/// Whether buffer index `i` falls in the `scale` x `scale` block whose
/// top-left screen pixel is (`bx`, `by`).
pub open spec fn in_block(bx: int, by: int, scale: int, width_px: u32, i: int) -> bool {
    &&& bx <= i % (width_px as int) < bx + scale
    &&& by <= i / (width_px as int) < by + scale
}

/// Whether buffer index `i` is covered by the lit font pixel (`row`, `col`)
/// of `c` drawn with its top-left corner at (`cx`, `cy`).
pub open spec fn glyph_cell(
    c: char,
    row: int,
    col: int,
    cx: int,
    cy: int,
    scale: int,
    width_px: u32,
    i: int,
) -> bool {
    lit(c, row, col) && in_block(cx + col * scale, cy + row * scale, scale, width_px, i)
}

/// Whether buffer index `i` is covered by some lit pixel of `c` drawn at (`cx`, `cy`).
pub open spec fn char_covers(c: char, cx: int, cy: int, scale: int, width_px: u32, i: int) -> bool {
    exists|row: int, col: int| #[trigger] glyph_cell(c, row, col, cx, cy, scale, width_px, i)
}

/// Where character `k` of `text` is drawn: each character advances the
/// cursor one glyph and a blank column to the right, and `'\n'` returns to
/// column `x` one glyph and a blank row further down.
pub open spec fn cursor(text: Seq<char>, x: int, y: int, scale: int, k: int) -> (int, int)
    decreases k,
{
    if k <= 0 {
        (x, y)
    } else {
        let prev = cursor(text, x, y, scale, k - 1);
        if text[k - 1] == '\n' {
            (x, prev.1 + (GLYPH_HEIGHT + 1) * scale)
        } else {
            (prev.0 + (GLYPH_WIDTH + 1) * scale, prev.1)
        }
    }
}

/// Whether buffer index `i` is covered by a lit pixel of the character at position `k` of `text`.
pub open spec fn text_cell(
    text: Seq<char>,
    x: int,
    y: int,
    scale: int,
    width_px: u32,
    k: int,
    row: int,
    col: int,
    i: int,
) -> bool {
    &&& 0 <= k < text.len()
    &&& glyph_cell(
        text[k],
        row,
        col,
        cursor(text, x, y, scale, k).0,
        cursor(text, x, y, scale, k).1,
        scale,
        width_px,
        i,
    )
}

/// Whether buffer index `i` is covered by a lit pixel of one of the first `n` characters of `text`.
pub open spec fn text_covers_prefix(
    text: Seq<char>,
    x: int,
    y: int,
    scale: int,
    width_px: u32,
    n: int,
    i: int,
) -> bool {
    exists|k: int, row: int, col: int|
        k < n && #[trigger] text_cell(text, x, y, scale, width_px, k, row, col, i)
}

/// Whether buffer index `i` is painted when `text` is drawn at (`x`, `y`).
pub open spec fn text_paints(
    text: Seq<char>,
    x: int,
    y: int,
    scale: int,
    width_px: u32,
    height_px: u32,
    i: int,
) -> bool {
    on_screen(width_px, height_px, i) && text_covers_prefix(
        text,
        x,
        y,
        scale,
        width_px,
        text.len() as int,
        i,
    )
}

/// The buffer after drawing `text`: every pixel it paints becomes `color`,
/// every other pixel keeps its value.
pub open spec fn drawn(
    buffer: Seq<u32>,
    text: Seq<char>,
    x: int,
    y: int,
    scale: int,
    width_px: u32,
    height_px: u32,
    color: u32,
) -> Seq<u32> {
    Seq::new(
        buffer.len(),
        |i: int|
            if text_paints(text, x, y, scale, width_px, height_px, i) {
                color
            } else {
                buffer[i]
            },
    )
}

proof fn lemma_pixel_index(w: int, h: int, px: int, py: int)
    requires
        0 <= px < w,
        0 <= py < h,
    ensures
        (py * w + px) % w == px,
        (py * w + px) / w == py,
        0 <= py * w + px < w * h,
{
    lemma_fundamental_div_mod_converse(py * w + px, w, py, px);
    assert(0 <= py * w + px < w * h) by (nonlinear_arith)
        requires
            0 <= px < w,
            0 <= py < h,
    ;
}

proof fn lemma_index_coords(w: int, h: int, i: int)
    requires
        w > 0,
        0 <= i < w * h,
    ensures
        0 <= i % w < w,
        0 <= i / w < h,
        i == (i / w) * w + i % w,
{
    lemma_fundamental_div_mod(i, w);
    assert(0 <= i % w < w);
    assert(0 <= i / w < h) by (nonlinear_arith)
        requires
            w > 0,
            0 <= i < w * h,
            i == w * (i / w) + i % w,
            0 <= i % w < w,
    ;
    assert(i == (i / w) * w + i % w) by (nonlinear_arith)
        requires
            i == w * (i / w) + i % w,
    ;
}

/// The 7-row bitmap for a character. Unknown characters are blank.
fn glyph(c: char) -> (rows: [u8; 7])
    ensures
        rows@ == glyph_rows(c),
{
    let rows: [u8; 7] = match c {
        '0' => [0x0E, 0x11, 0x11, 0x11, 0x11, 0x11, 0x0E],
        '1' => [0x04, 0x0C, 0x04, 0x04, 0x04, 0x04, 0x0E],
        '2' => [0x0E, 0x11, 0x01, 0x02, 0x04, 0x08, 0x1F],
        '3' => [0x0E, 0x11, 0x01, 0x06, 0x01, 0x11, 0x0E],
        '4' => [0x02, 0x06, 0x0A, 0x12, 0x1F, 0x02, 0x02],
        '5' => [0x1F, 0x10, 0x1E, 0x01, 0x01, 0x11, 0x0E],
        '6' => [0x0E, 0x11, 0x10, 0x1E, 0x11, 0x11, 0x0E],
        '7' => [0x1F, 0x01, 0x02, 0x04, 0x08, 0x08, 0x08],
        '8' => [0x0E, 0x11, 0x11, 0x0E, 0x11, 0x11, 0x0E],
        '9' => [0x0E, 0x11, 0x11, 0x0F, 0x01, 0x11, 0x0E],
        'I' => [0x0E, 0x04, 0x04, 0x04, 0x04, 0x04, 0x0E],
        'D' => [0x1C, 0x12, 0x11, 0x11, 0x11, 0x12, 0x1C],
        'P' => [0x1E, 0x11, 0x11, 0x1E, 0x10, 0x10, 0x10],
        'O' => [0x0E, 0x11, 0x11, 0x11, 0x11, 0x11, 0x0E],
        'S' => [0x0F, 0x10, 0x10, 0x0E, 0x01, 0x01, 0x1E],
        'V' => [0x11, 0x11, 0x11, 0x11, 0x11, 0x0A, 0x04],
        'E' => [0x1F, 0x10, 0x10, 0x1E, 0x10, 0x10, 0x1F],
        'L' => [0x10, 0x10, 0x10, 0x10, 0x10, 0x10, 0x1F],
        '.' => [0x00, 0x00, 0x00, 0x00, 0x00, 0x06, 0x06],
        ',' => [0x00, 0x00, 0x00, 0x00, 0x06, 0x06, 0x08],
        '-' => [0x00, 0x00, 0x00, 0x0E, 0x00, 0x00, 0x00],
        _ => [0x00; 7],
    };
    assert(rows@ =~= glyph_rows(c));
    rows
}


/// Buffer index `i` lies in one of the first `rows` rows of the block at (`bx`, `by`).
spec fn block_rows_done(bx: int, by: int, scale: int, width_px: u32, rows: int, i: int) -> bool {
    &&& bx <= i % (width_px as int) < bx + scale
    &&& by <= i / (width_px as int) < by + rows
}

/// Buffer index `i` lies in the first `rows` full rows of the block, or in
/// the first `cols` pixels of the row after them.
spec fn block_done(
    bx: int,
    by: int,
    scale: int,
    width_px: u32,
    rows: int,
    cols: int,
    i: int,
) -> bool {
    ||| block_rows_done(bx, by, scale, width_px, rows, i)
    ||| (i / (width_px as int) == by + rows && bx <= i % (width_px as int) < bx + cols)
}

/// The largest magnitude a drawing coordinate reaches inside this module.
pub open spec fn coord_bound() -> int {
    0x1_0000_0000_0000_0000_0000_0000_0000
}

/// `v as i32` for a `u32` screen dimension: dimensions past `i32::MAX` wrap negative.
fn dim_limit(v: u32) -> (r: i128)
    ensures
        v <= i32::MAX ==> r == v,
        v > i32::MAX ==> r < 0,
{
    if v <= 0x7fff_ffff {
        v as i128
    } else {
        v as i128 - 0x1_0000_0000
    }
}

/// Paint the `scale` x `scale` block whose top-left screen pixel is
/// (`bx`, `by`), clipped to the screen.
fn paint_block(
    buffer: &mut [u32],
    width_px: u32,
    height_px: u32,
    bx: i128,
    by: i128,
    scale: i32,
    color: u32,
)
    requires
        -coord_bound() < bx < coord_bound(),
        -coord_bound() < by < coord_bound(),
        forall|i: int|
            on_screen(width_px, height_px, i) && in_block(bx as int, by as int, scale as int, width_px, i)
                ==> i < old(buffer)@.len() && i <= u32::MAX,
    ensures
        final(buffer)@.len() == old(buffer)@.len(),
        forall|i: int|
            0 <= i < old(buffer)@.len() ==> #[trigger] final(buffer)@[i] == if on_screen(
                width_px,
                height_px,
                i,
            ) && in_block(bx as int, by as int, scale as int, width_px, i) {
                color
            } else {
                old(buffer)@[i]
            },
{
    let ghost w = width_px as int;
    let ghost h = height_px as int;
    let ghost s = scale as int;
    let ghost orig = buffer@;
    let w_lim = dim_limit(width_px);
    let h_lim = dim_limit(height_px);
    let mut sy: i32 = 0;
    while sy < scale
        invariant
            0 <= sy,
            sy <= scale || scale <= 0,
            w == width_px,
            h == height_px,
            s == scale,
            buffer@.len() == orig.len(),
            -coord_bound() < bx < coord_bound(),
            -coord_bound() < by < coord_bound(),
            width_px <= i32::MAX ==> w_lim == w,
            width_px > i32::MAX ==> w_lim < 0,
            height_px <= i32::MAX ==> h_lim == h,
            height_px > i32::MAX ==> h_lim < 0,
            forall|i: int|
                on_screen(width_px, height_px, i) && in_block(bx as int, by as int, s, width_px, i)
                    ==> i < orig.len() && i <= u32::MAX,
            forall|i: int|
                0 <= i < orig.len() ==> #[trigger] buffer@[i] == if on_screen(
                    width_px,
                    height_px,
                    i,
                ) && block_rows_done(bx as int, by as int, s, width_px, sy as int, i) {
                    color
                } else {
                    orig[i]
                },
        decreases scale - sy,
    {
        let mut sx: i32 = 0;
        while sx < scale
            invariant
                0 <= sx <= scale,
                0 <= sy < scale,
                w == width_px,
                h == height_px,
                s == scale,
                buffer@.len() == orig.len(),
                -coord_bound() < bx < coord_bound(),
                -coord_bound() < by < coord_bound(),
                width_px <= i32::MAX ==> w_lim == w,
                width_px > i32::MAX ==> w_lim < 0,
                height_px <= i32::MAX ==> h_lim == h,
                height_px > i32::MAX ==> h_lim < 0,
                forall|i: int|
                    on_screen(width_px, height_px, i) && in_block(
                        bx as int,
                        by as int,
                        s,
                        width_px,
                        i,
                    ) ==> i < orig.len() && i <= u32::MAX,
                forall|i: int|
                    0 <= i < orig.len() ==> #[trigger] buffer@[i] == if on_screen(
                        width_px,
                        height_px,
                        i,
                    ) && block_done(bx as int, by as int, s, width_px, sy as int, sx as int, i) {
                        color
                    } else {
                        orig[i]
                    },
            decreases scale - sx,
        {
            let px: i128 = bx + sx as i128;
            let py: i128 = by + sy as i128;
            if px >= 0 && px < w_lim && py >= 0 && py < h_lim {
                proof {
                    lemma_pixel_index(w, h, px as int, py as int);
                    assert(on_screen(width_px, height_px, py * w + px));
                    assert(in_block(bx as int, by as int, s, width_px, py * w + px));
                }
                let index: u64 = (py as u64) * (width_px as u64) + (px as u64);
                buffer[index as usize] = color;
                proof {
                    assert forall|j: int| 0 <= j < orig.len() implies #[trigger] buffer@[j] == if on_screen(
                        width_px,
                        height_px,
                        j,
                    ) && block_done(bx as int, by as int, s, width_px, sy as int, sx + 1, j) {
                        color
                    } else {
                        orig[j]
                    } by {
                        if j != index && on_screen(width_px, height_px, j) {
                            lemma_index_coords(w, h, j);
                            if j / w == py && j % w == px {
                                assert(j == py * w + px);
                            }
                        }
                    }
                }
            } else {
                proof {
                    assert forall|j: int| 0 <= j < orig.len() implies #[trigger] buffer@[j] == if on_screen(
                        width_px,
                        height_px,
                        j,
                    ) && block_done(bx as int, by as int, s, width_px, sy as int, sx + 1, j) {
                        color
                    } else {
                        orig[j]
                    } by {
                        if on_screen(width_px, height_px, j) {
                            lemma_index_coords(w, h, j);
                        }
                    }
                }
            }
            sx = sx + 1;
        }
        proof {
            assert forall|j: int| 0 <= j < orig.len() implies #[trigger] buffer@[j] == if on_screen(
                width_px,
                height_px,
                j,
            ) && block_rows_done(bx as int, by as int, s, width_px, sy + 1, j) {
                color
            } else {
                orig[j]
            } by {}
        }
        sy = sy + 1;
    }
    proof {
        assert forall|j: int| 0 <= j < orig.len() implies #[trigger] buffer@[j] == if on_screen(
            width_px,
            height_px,
            j,
        ) && in_block(bx as int, by as int, s, width_px, j) {
            color
        } else {
            orig[j]
        } by {}
    }
}


/// Whether buffer index `i` is covered by a lit pixel of `c` that comes
/// before (`rows`, `cols`) in row-major order.
spec fn char_covers_before(
    c: char,
    cx: int,
    cy: int,
    scale: int,
    width_px: u32,
    rows: int,
    cols: int,
    i: int,
) -> bool {
    exists|row: int, col: int|
        #[trigger] glyph_cell(c, row, col, cx, cy, scale, width_px, i) && (row < rows || (row
            == rows && col < cols))
}

/// Draw one character with its top-left corner at (`x`, `y`); each font
/// pixel becomes a `scale` x `scale` block on screen.
fn draw_char(
    buffer: &mut [u32],
    width_px: u32,
    height_px: u32,
    x: i128,
    y: i128,
    c: char,
    scale: i32,
    color: u32,
)
    requires
        -coord_bound() + 0x100_0000_0000 < x < coord_bound() - 0x100_0000_0000,
        -coord_bound() + 0x100_0000_0000 < y < coord_bound() - 0x100_0000_0000,
        forall|i: int|
            on_screen(width_px, height_px, i) && char_covers(
                c,
                x as int,
                y as int,
                scale as int,
                width_px,
                i,
            ) ==> i < old(buffer)@.len() && i <= u32::MAX,
    ensures
        final(buffer)@.len() == old(buffer)@.len(),
        forall|i: int|
            0 <= i < old(buffer)@.len() ==> #[trigger] final(buffer)@[i] == if on_screen(
                width_px,
                height_px,
                i,
            ) && char_covers(c, x as int, y as int, scale as int, width_px, i) {
                color
            } else {
                old(buffer)@[i]
            },
{
    let ghost orig = buffer@;
    let ghost s = scale as int;
    let rows = glyph(c);
    let mut row: usize = 0;
    while row < 7
        invariant
            0 <= row <= 7,
            s == scale,
            rows@ == glyph_rows(c),
            buffer@.len() == orig.len(),
            -coord_bound() + 0x100_0000_0000 < x < coord_bound() - 0x100_0000_0000,
            -coord_bound() + 0x100_0000_0000 < y < coord_bound() - 0x100_0000_0000,
            forall|i: int|
                on_screen(width_px, height_px, i) && char_covers(
                    c,
                    x as int,
                    y as int,
                    s,
                    width_px,
                    i,
                ) ==> i < orig.len() && i <= u32::MAX,
            forall|i: int|
                0 <= i < orig.len() ==> #[trigger] buffer@[i] == if on_screen(
                    width_px,
                    height_px,
                    i,
                ) && char_covers_before(c, x as int, y as int, s, width_px, row as int, 0, i) {
                    color
                } else {
                    orig[i]
                },
        decreases 7 - row,
    {
        let row_bits = rows[row];
        let mut col: u8 = 0;
        while col < 5
            invariant
                0 <= col <= 5,
                0 <= row < 7,
                s == scale,
                rows@ == glyph_rows(c),
                row_bits == glyph_rows(c)[row as int],
                buffer@.len() == orig.len(),
                -coord_bound() + 0x100_0000_0000 < x < coord_bound() - 0x100_0000_0000,
                -coord_bound() + 0x100_0000_0000 < y < coord_bound() - 0x100_0000_0000,
                forall|i: int|
                    on_screen(width_px, height_px, i) && char_covers(
                        c,
                        x as int,
                        y as int,
                        s,
                        width_px,
                        i,
                    ) ==> i < orig.len() && i <= u32::MAX,
                forall|i: int|
                    0 <= i < orig.len() ==> #[trigger] buffer@[i] == if on_screen(
                        width_px,
                        height_px,
                        i,
                    ) && char_covers_before(
                        c,
                        x as int,
                        y as int,
                        s,
                        width_px,
                        row as int,
                        col as int,
                        i,
                    ) {
                        color
                    } else {
                        orig[i]
                    },
            decreases 5 - col,
        {
            let is_lit = (row_bits >> (4 - col)) & 1 == 1;
            assert(is_lit == lit(c, row as int, col as int));
            if is_lit {
                assert(-0x10_0000_0000 < (col as int) * (scale as int) < 0x10_0000_0000)
                    by (nonlinear_arith)
                    requires
                        0 <= col < 5,
                        i32::MIN <= scale <= i32::MAX,
                ;
                assert(-0x10_0000_0000 < (row as int) * (scale as int) < 0x10_0000_0000)
                    by (nonlinear_arith)
                    requires
                        0 <= row < 7,
                        i32::MIN <= scale <= i32::MAX,
                ;
                let bx: i128 = x + (col as i128) * (scale as i128);
                let by: i128 = y + (row as i128) * (scale as i128);
                proof {
                    assert forall|i: int|
                        on_screen(width_px, height_px, i) && in_block(
                            bx as int,
                            by as int,
                            s,
                            width_px,
                            i,
                        ) implies i < orig.len() && i <= u32::MAX by {
                        assert(glyph_cell(c, row as int, col as int, x as int, y as int, s, width_px, i));
                    }
                }
                paint_block(buffer, width_px, height_px, bx, by, scale, color);
                proof {
                    assert forall|i: int| 0 <= i < orig.len() implies #[trigger] buffer@[i] == if on_screen(
                        width_px,
                        height_px,
                        i,
                    ) && char_covers_before(
                        c,
                        x as int,
                        y as int,
                        s,
                        width_px,
                        row as int,
                        col + 1,
                        i,
                    ) {
                        color
                    } else {
                        orig[i]
                    } by {
                        if in_block(bx as int, by as int, s, width_px, i) {
                            assert(glyph_cell(c, row as int, col as int, x as int, y as int, s, width_px, i));
                        }
                    }
                }
            } else {
                proof {
                    assert forall|i: int| 0 <= i < orig.len() implies #[trigger] buffer@[i] == if on_screen(
                        width_px,
                        height_px,
                        i,
                    ) && char_covers_before(
                        c,
                        x as int,
                        y as int,
                        s,
                        width_px,
                        row as int,
                        col + 1,
                        i,
                    ) {
                        color
                    } else {
                        orig[i]
                    } by {}
                }
            }
            col = col + 1;
        }
        proof {
            assert forall|i: int| 0 <= i < orig.len() implies #[trigger] buffer@[i] == if on_screen(
                width_px,
                height_px,
                i,
            ) && char_covers_before(c, x as int, y as int, s, width_px, row + 1, 0, i) {
                color
            } else {
                orig[i]
            } by {}
        }
        row = row + 1;
    }
    proof {
        assert forall|i: int| 0 <= i < orig.len() implies #[trigger] buffer@[i] == if on_screen(
            width_px,
            height_px,
            i,
        ) && char_covers(c, x as int, y as int, s, width_px, i) {
            color
        } else {
            orig[i]
        } by {}
    }
}


proof fn lemma_blank_unlit(c: char, row: int, col: int)
    requires
        0 <= row < 7,
        glyph_rows(c)[row] == 0u8,
    ensures
        !lit(c, row, col),
{
    let n = (4 - col) as u8;
    assert((0u8 >> n) & 1u8 == 0u8) by (bit_vector);
}

/// Draw `text` with its first character's top-left corner at (`x`, `y`).
/// Each character advances one glyph plus a blank column to the right, and
/// `'\n'` starts a new line one glyph plus a blank row further down, back at
/// column `x`. Every buffer pixel that a lit font pixel covers becomes
/// `color`; every other pixel keeps its value.
pub fn draw_text(
    buffer: &mut [u32],
    width_px: u32,
    height_px: u32,
    x: i32,
    y: i32,
    text: &str,
    scale: i32,
    color: u32,
)
    requires
        forall|i: int|
            text_paints(text@, x as int, y as int, scale as int, width_px, height_px, i) ==> i
                < old(buffer)@.len() && i <= u32::MAX,
    ensures
        final(buffer)@ == drawn(
            old(buffer)@,
            text@,
            x as int,
            y as int,
            scale as int,
            width_px,
            height_px,
            color,
        ),
{
    broadcast use vstd::string::group_string_axioms;

    let ghost orig = buffer@;
    let ghost t = text@;
    let ghost s = scale as int;
    let mut chars: Vec<char> = Vec::new();
    for c in it: text.chars()
        invariant
            chars@ == it.seq().take(it.index() as int),
    {
        chars.push(c);
    }
    assert(chars@ =~= t);
    let n = chars.len();
    let step_x: i128 = (GLYPH_WIDTH as i128 + 1) * (scale as i128);
    let step_y: i128 = (GLYPH_HEIGHT as i128 + 1) * (scale as i128);
    let mut cursor_x: i128 = x as i128;
    let mut cursor_y: i128 = y as i128;
    let mut k: usize = 0;
    while k < n
        invariant
            0 <= k <= n,
            n == chars@.len(),
            chars@ == t,
            t == text@,
            s == scale,
            step_x == 6 * s,
            step_y == 8 * s,
            buffer@.len() == orig.len(),
            (cursor_x as int, cursor_y as int) == cursor(t, x as int, y as int, s, k as int),
            -0x4_0000_0000 * k <= cursor_x - x <= 0x4_0000_0000 * k,
            -0x4_0000_0000 * k <= cursor_y - y <= 0x4_0000_0000 * k,
            forall|i: int|
                text_paints(t, x as int, y as int, s, width_px, height_px, i) ==> i < orig.len()
                    && i <= u32::MAX,
            forall|i: int|
                0 <= i < orig.len() ==> #[trigger] buffer@[i] == if on_screen(
                    width_px,
                    height_px,
                    i,
                ) && text_covers_prefix(t, x as int, y as int, s, width_px, k as int, i) {
                    color
                } else {
                    orig[i]
                },
        decreases n - k,
    {
        let c = chars[k];
        let ghost cx = cursor_x as int;
        let ghost cy = cursor_y as int;
        if c == '\n' {
            proof {
                assert forall|i: int| 0 <= i < orig.len() implies #[trigger] buffer@[i] == if on_screen(
                    width_px,
                    height_px,
                    i,
                ) && text_covers_prefix(t, x as int, y as int, s, width_px, k + 1, i) {
                    color
                } else {
                    orig[i]
                } by {
                    assert forall|row: int, col: int|
                        !#[trigger] text_cell(t, x as int, y as int, s, width_px, k as int, row, col, i) by {
                        if 0 <= row < 7 {
                            lemma_blank_unlit(c, row, col);
                        }
                    }
                }
            }
            cursor_x = x as i128;
            cursor_y = cursor_y + step_y;
        } else {
            proof {
                assert forall|i: int|
                    on_screen(width_px, height_px, i) && char_covers(c, cx, cy, s, width_px, i) implies i
                        < orig.len() && i <= u32::MAX by {
                    let (row, col) = choose|row: int, col: int|
                        #[trigger] glyph_cell(c, row, col, cx, cy, s, width_px, i);
                    assert(text_cell(t, x as int, y as int, s, width_px, k as int, row, col, i));
                    assert(text_covers_prefix(t, x as int, y as int, s, width_px, t.len() as int, i));
                    assert(text_paints(t, x as int, y as int, s, width_px, height_px, i));
                }
            }
            draw_char(buffer, width_px, height_px, cursor_x, cursor_y, c, scale, color);
            proof {
                assert forall|i: int| 0 <= i < orig.len() implies #[trigger] buffer@[i] == if on_screen(
                    width_px,
                    height_px,
                    i,
                ) && text_covers_prefix(t, x as int, y as int, s, width_px, k + 1, i) {
                    color
                } else {
                    orig[i]
                } by {
                    if char_covers(c, cx, cy, s, width_px, i) {
                        let (row, col) = choose|row: int, col: int|
                            #[trigger] glyph_cell(c, row, col, cx, cy, s, width_px, i);
                        assert(text_cell(t, x as int, y as int, s, width_px, k as int, row, col, i));
                    }
                    if text_covers_prefix(t, x as int, y as int, s, width_px, k + 1, i) {
                        let (kk, row, col) = choose|kk: int, row: int, col: int|
                            kk < k + 1 && #[trigger] text_cell(
                                t,
                                x as int,
                                y as int,
                                s,
                                width_px,
                                kk,
                                row,
                                col,
                                i,
                            );
                        if kk == k {
                            assert(glyph_cell(c, row, col, cx, cy, s, width_px, i));
                        }
                    }
                }
            }
            cursor_x = cursor_x + step_x;
        }
        k = k + 1;
    }
    assert(buffer@ =~= drawn(orig, t, x as int, y as int, s, width_px, height_px, color));
}

/// Drawing the same text twice leaves the buffer as drawing it once does.
pub proof fn law_draw_idempotent(
    buffer: Seq<u32>,
    text: Seq<char>,
    x: int,
    y: int,
    scale: int,
    width_px: u32,
    height_px: u32,
    color: u32,
)
    ensures
        drawn(drawn(buffer, text, x, y, scale, width_px, height_px, color), text, x, y, scale, width_px, height_px, color)
            == drawn(buffer, text, x, y, scale, width_px, height_px, color),
{
    assert(drawn(drawn(buffer, text, x, y, scale, width_px, height_px, color), text, x, y, scale, width_px, height_px, color)
        =~= drawn(buffer, text, x, y, scale, width_px, height_px, color));
}

/// Drawing no text, or drawing at a scale that is not positive, changes no pixel.
pub proof fn law_draw_nothing(
    buffer: Seq<u32>,
    text: Seq<char>,
    x: int,
    y: int,
    scale: int,
    width_px: u32,
    height_px: u32,
    color: u32,
)
    requires
        text.len() == 0 || scale <= 0,
    ensures
        drawn(buffer, text, x, y, scale, width_px, height_px, color) == buffer,
{
    assert forall|i: int| 0 <= i < buffer.len() implies !text_paints(
        text,
        x,
        y,
        scale,
        width_px,
        height_px,
        i,
    ) by {
        if text_covers_prefix(text, x, y, scale, width_px, text.len() as int, i) {
            let (k, row, col) = choose|k: int, row: int, col: int|
                k < text.len() && #[trigger] text_cell(text, x, y, scale, width_px, k, row, col, i);
        }
    }
    assert(drawn(buffer, text, x, y, scale, width_px, height_px, color) =~= buffer);
}

/// A `'\n'` starts the next line back at column `x`, one glyph and a blank
/// row further down; any other character moves one glyph and a blank column right.
pub proof fn law_cursor_advance(text: Seq<char>, x: int, y: int, scale: int, k: int)
    requires
        0 <= k < text.len(),
    ensures
        text[k] == '\n' ==> cursor(text, x, y, scale, k + 1) == (
            x,
            cursor(text, x, y, scale, k).1 + 8 * scale,
        ),
        text[k] != '\n' ==> cursor(text, x, y, scale, k + 1) == (
            cursor(text, x, y, scale, k).0 + 6 * scale,
            cursor(text, x, y, scale, k).1,
        ),
{
}

/// How many line breaks come before position `k` of `text`: the line the
/// character at `k` is on, counting from 0.
pub open spec fn line_of(text: Seq<char>, k: int) -> int
    decreases k,
{
    if k <= 0 {
        0
    } else {
        line_of(text, k - 1) + if text[k - 1] == '\n' {
            1int
        } else {
            0int
        }
    }
}

/// How many characters come between the last line break before position
/// `k` (or the start of `text`) and `k`: the character's place in its line.
pub open spec fn column_of(text: Seq<char>, k: int) -> int
    decreases k,
{
    if k <= 0 {
        0
    } else if text[k - 1] == '\n' {
        0
    } else {
        column_of(text, k - 1) + 1
    }
}

/// The character at place `column` of line `line` is drawn with its
/// top-left corner `column` glyph widths and `line` glyph heights (each with
/// its blank gap) from (`x`, `y`).
pub proof fn law_cursor_is_line_and_column(text: Seq<char>, x: int, y: int, scale: int, k: int)
    requires
        0 <= k <= text.len(),
    ensures
        cursor(text, x, y, scale, k) == (
            x + 6 * scale * column_of(text, k),
            y + 8 * scale * line_of(text, k),
        ),
    decreases k,
{
    if k > 0 {
        law_cursor_is_line_and_column(text, x, y, scale, k - 1);
        let c = column_of(text, k - 1);
        let l = line_of(text, k - 1);
        assert(6 * scale * (c + 1) == 6 * scale * c + 6 * scale) by (nonlinear_arith);
        assert(8 * scale * (l + 1) == 8 * scale * l + 8 * scale) by (nonlinear_arith);
    }
}

/// Drawing text paints exactly the on-screen pixels that some character
/// paints when drawn on its own at its place: character `k`, at place
/// `column_of(text, k)` of line `line_of(text, k)`, drawn at
/// (`x + 6 * scale * column`, `y + 8 * scale * line`). A character with no
/// glyph, such as a space or a line break, paints nothing but still moves
/// the next character along.
pub proof fn law_text_is_union_of_chars(
    text: Seq<char>,
    x: int,
    y: int,
    scale: int,
    width_px: u32,
    height_px: u32,
    i: int,
)
    ensures
        text_paints(text, x, y, scale, width_px, height_px, i) <==> on_screen(width_px, height_px, i)
            && exists|k: int|
            0 <= k < text.len() && #[trigger] char_covers(
                text[k],
                x + 6 * scale * column_of(text, k),
                y + 8 * scale * line_of(text, k),
                scale,
                width_px,
                i,
            ),
        forall|c: char, cx: int, cy: int|
            glyph_rows(c) == seq![0u8, 0, 0, 0, 0, 0, 0] ==> !#[trigger] char_covers(
                c,
                cx,
                cy,
                scale,
                width_px,
                i,
            ),
        glyph_rows(' ') == seq![0u8, 0, 0, 0, 0, 0, 0],
        glyph_rows('\n') == seq![0u8, 0, 0, 0, 0, 0, 0],
{
    let pos = |k: int| (x + 6 * scale * column_of(text, k), y + 8 * scale * line_of(text, k));
    if text_paints(text, x, y, scale, width_px, height_px, i) {
        let (k, row, col) = choose|k: int, row: int, col: int|
            k < text.len() && #[trigger] text_cell(text, x, y, scale, width_px, k, row, col, i);
        law_cursor_is_line_and_column(text, x, y, scale, k);
        assert(glyph_cell(text[k], row, col, pos(k).0, pos(k).1, scale, width_px, i));
        assert(char_covers(text[k], pos(k).0, pos(k).1, scale, width_px, i));
    }
    if on_screen(width_px, height_px, i) && exists|k: int|
        0 <= k < text.len() && #[trigger] char_covers(
            text[k],
            x + 6 * scale * column_of(text, k),
            y + 8 * scale * line_of(text, k),
            scale,
            width_px,
            i,
        ) {
        let k = choose|k: int|
            0 <= k < text.len() && #[trigger] char_covers(
                text[k],
                x + 6 * scale * column_of(text, k),
                y + 8 * scale * line_of(text, k),
                scale,
                width_px,
                i,
            );
        law_cursor_is_line_and_column(text, x, y, scale, k);
        let (row, col) = choose|row: int, col: int|
            #[trigger] glyph_cell(text[k], row, col, pos(k).0, pos(k).1, scale, width_px, i);
        assert(text_cell(text, x, y, scale, width_px, k, row, col, i));
        assert(text_covers_prefix(text, x, y, scale, width_px, text.len() as int, i));
    }
    assert forall|c: char, cx: int, cy: int|
        glyph_rows(c) == seq![0u8, 0, 0, 0, 0, 0, 0] implies !#[trigger] char_covers(
        c,
        cx,
        cy,
        scale,
        width_px,
        i,
    ) by {
        if char_covers(c, cx, cy, scale, width_px, i) {
            let (row, col) = choose|row: int, col: int|
                #[trigger] glyph_cell(c, row, col, cx, cy, scale, width_px, i);
            assert(glyph_rows(c)[row] == 0u8);
            let sh = (4 - col) as u8;
            assert((0u8 >> sh) & 1u8 == 0u8) by (bit_vector);
        }
    }
}

/// The font's data: the seven row bytes of every character the font
/// defines (bit 4 of a row is its leftmost column), and a blank glyph for
/// every other character, space included.
pub proof fn law_font_data(c: char)
    ensures
        glyph_rows('0') == seq![0x0Eu8, 0x11, 0x11, 0x11, 0x11, 0x11, 0x0E],
        glyph_rows('1') == seq![0x04u8, 0x0C, 0x04, 0x04, 0x04, 0x04, 0x0E],
        glyph_rows('2') == seq![0x0Eu8, 0x11, 0x01, 0x02, 0x04, 0x08, 0x1F],
        glyph_rows('3') == seq![0x0Eu8, 0x11, 0x01, 0x06, 0x01, 0x11, 0x0E],
        glyph_rows('4') == seq![0x02u8, 0x06, 0x0A, 0x12, 0x1F, 0x02, 0x02],
        glyph_rows('5') == seq![0x1Fu8, 0x10, 0x1E, 0x01, 0x01, 0x11, 0x0E],
        glyph_rows('6') == seq![0x0Eu8, 0x11, 0x10, 0x1E, 0x11, 0x11, 0x0E],
        glyph_rows('7') == seq![0x1Fu8, 0x01, 0x02, 0x04, 0x08, 0x08, 0x08],
        glyph_rows('8') == seq![0x0Eu8, 0x11, 0x11, 0x0E, 0x11, 0x11, 0x0E],
        glyph_rows('9') == seq![0x0Eu8, 0x11, 0x11, 0x0F, 0x01, 0x11, 0x0E],
        glyph_rows('I') == seq![0x0Eu8, 0x04, 0x04, 0x04, 0x04, 0x04, 0x0E],
        glyph_rows('D') == seq![0x1Cu8, 0x12, 0x11, 0x11, 0x11, 0x12, 0x1C],
        glyph_rows('P') == seq![0x1Eu8, 0x11, 0x11, 0x1E, 0x10, 0x10, 0x10],
        glyph_rows('O') == seq![0x0Eu8, 0x11, 0x11, 0x11, 0x11, 0x11, 0x0E],
        glyph_rows('S') == seq![0x0Fu8, 0x10, 0x10, 0x0E, 0x01, 0x01, 0x1E],
        glyph_rows('V') == seq![0x11u8, 0x11, 0x11, 0x11, 0x11, 0x0A, 0x04],
        glyph_rows('E') == seq![0x1Fu8, 0x10, 0x10, 0x1E, 0x10, 0x10, 0x1F],
        glyph_rows('L') == seq![0x10u8, 0x10, 0x10, 0x10, 0x10, 0x10, 0x1F],
        glyph_rows('.') == seq![0x00u8, 0x00, 0x00, 0x00, 0x00, 0x06, 0x06],
        glyph_rows(',') == seq![0x00u8, 0x00, 0x00, 0x00, 0x06, 0x06, 0x08],
        glyph_rows('-') == seq![0x00u8, 0x00, 0x00, 0x0E, 0x00, 0x00, 0x00],
        c != '0' && c != '1' && c != '2' && c != '3' && c != '4' && c != '5' && c != '6' && c != '7' && c != '8' && c != '9' && c != 'I' && c != 'D' && c != 'P' && c != 'O' && c != 'S' && c != 'V' && c != 'E' && c != 'L' && c != '.' && c != ',' && c != '-' ==> glyph_rows(c) == seq![0u8, 0, 0, 0, 0, 0, 0],
{
}

/// Different digits are drawn differently: no two of `0`-`9` share a glyph.
pub proof fn law_digits_distinct(a: char, b: char)
    requires
        '0' <= a <= '9',
        '0' <= b <= '9',
        a != b,
    ensures
        glyph_rows(a) != glyph_rows(b),
{
    law_font_data(a);
    if glyph_rows(a) == glyph_rows(b) {
        let ra = glyph_rows(a);
        let rb = glyph_rows(b);
        assert(ra[0] == rb[0] && ra[1] == rb[1] && ra[2] == rb[2] && ra[3] == rb[3] && ra[4] == rb[4]
            && ra[5] == rb[5] && ra[6] == rb[6]);
    }
}

} // verus!
