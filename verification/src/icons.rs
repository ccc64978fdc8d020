//! The icons of the chat screen: 8-bit coverage masks in an atlas, drawn in any colour. The atlas
//! starts with one byte, then per icon its side and where its packed mask starts (a `u32`, little
//! endian); the masks are packed as `bake::pack` packs them.

use vstd::prelude::*;
use crate::bake::{expand, restore, tokens_fit};
use crate::canvas::{Canvas, blended, column, line, spot, before, coordinate, lemma_grid};
use crate::font::{byte_at, u32_at, stream_fits};

verus! {

/// Bytes of an icon's entry in the atlas.
pub const ENTRY_BYTES: usize = 5;
/// The largest icon is 64 by 64.
pub const MASK_MAX: usize = 4096;

/// Where the entry of icon `icon` starts.
pub open spec fn entry_at(icon: int) -> int {
    1 + icon * ENTRY_BYTES
}

/// The side of icon `icon`.
pub open spec fn icon_side(a: Seq<u8>, icon: int) -> int {
    byte_at(a, entry_at(icon))
}

/// Where the packed mask of icon `icon` starts.
pub open spec fn icon_packed_at(a: Seq<u8>, icon: int) -> int {
    u32_at(a, entry_at(icon) + 1)
}

/// Icon `icon` has an entry in the atlas, fits the mask buffer, and its tokens stand for exactly
/// its coverage bytes.
pub open spec fn icon_ready(a: Seq<u8>, icon: int) -> bool {
    let side = icon_side(a, icon);
    &&& entry_at(icon) + ENTRY_BYTES <= a.len()
    &&& side * side <= MASK_MAX
    &&& icon_packed_at(a, icon) <= a.len()
    &&& stream_fits(a, icon_packed_at(a, icon), side * side)
}

/// The coverage of icon `icon`, row after row.
pub open spec fn icon_mask(a: Seq<u8>, icon: int) -> Seq<u8> {
    let side = icon_side(a, icon);
    restore(expand(a.subrange(icon_packed_at(a, icon), a.len() as int), 0, side * side), side as nat)
}

/// What icon `icon` drawn with its top-left corner at (`x`, `y`) makes of the pixel `old` at
/// (`col`, `row`).
pub open spec fn icon_pixel(a: Seq<u8>, icon: int, old: u32, col: int, row: int, x: int, y: int, color: u32) -> u32 {
    let side = icon_side(a, icon);
    let (c, r) = (col - x, row - y);
    if 0 <= c < side && 0 <= r < side && icon_mask(a, icon)[r * side + c] != 0 {
        let alpha = icon_mask(a, icon)[r * side + c] as int;
        blended(old, color, alpha, alpha, alpha)
    } else {
        old
    }
}

/// Whether icon `icon` of `atlas` can be drawn.
pub fn icon_fits(atlas: &[u8], icon: usize) -> (ok: bool)
    ensures
        ok == icon_ready(atlas@, icon as int),
{
    if (icon as u128) * (ENTRY_BYTES as u128) + 1 + (ENTRY_BYTES as u128) > atlas.len() as u128 {
        assert(!icon_ready(atlas@, icon as int));
        return false;
    }
    let at = 1 + icon * ENTRY_BYTES;
    let side = atlas[at] as usize;
    let offset = atlas[at + 1] as usize + 0x100 * atlas[at + 2] as usize + 0x1_0000 * atlas[at + 3] as usize
        + 0x100_0000 * atlas[at + 4] as usize;
    assert(side == icon_side(atlas@, icon as int));
    assert(offset == icon_packed_at(atlas@, icon as int));
    assert(side * side < 65536) by (nonlinear_arith)
        requires
            side < 256,
    ;
    if side * side > MASK_MAX || offset > atlas.len() {
        return false;
    }
    tokens_fit(atlas, offset, side * side)
}

proof fn lemma_cell(side: int, r: int, c: int)
    requires
        0 <= r < side,
        0 <= c < side,
        side <= 64,
    ensures
        0 <= r * side + c < side * side,
        0 <= r * side <= 4096,
{
    assert(0 <= r * side + c < side * side && 0 <= r * side <= 4096) by (nonlinear_arith)
        requires
            0 <= r < side,
            0 <= c < side,
            side <= 64,
    ;
}

/// Draws icon `icon` of `atlas` with its top-left corner at (`x`, `y`).
pub fn draw(canvas: &mut Canvas, atlas: &[u8], x: i32, y: i32, icon: usize, color: u32)
    requires
        old(canvas).wf(),
        icon_ready(atlas@, icon as int),
        coordinate(x as int),
        coordinate(y as int),
    ensures
        final(canvas).wf(),
        final(canvas).drawn(
            old(canvas),
            (|i: int, p: u32|
                icon_pixel(atlas@, icon as int, p, column(old(canvas).w as int, i), line(old(canvas).w as int, old(canvas).y0 as int, i),
                    x as int, y as int, color)),
        ),
{
    let ghost prior = canvas.px@;
    let ghost (bw, by0) = (canvas.w as int, canvas.y0 as int);
    proof {
        lemma_grid(bw, by0, canvas.rows as int);
    }
    let alen = atlas.len();
    assert(entry_at(icon as int) + ENTRY_BYTES <= alen);
    let at = 1 + icon * ENTRY_BYTES;
    let side = atlas[at] as usize;
    let offset = atlas[at + 1] as usize + 0x100 * atlas[at + 2] as usize + 0x1_0000 * atlas[at + 3] as usize
        + 0x100_0000 * atlas[at + 4] as usize;
    assert(side == icon_side(atlas@, icon as int));
    assert(offset == icon_packed_at(atlas@, icon as int));
    assert(side <= 64) by (nonlinear_arith)
        requires
            side * side <= 4096,
    ;
    let ghost mask = icon_mask(atlas@, icon as int);
    let s = side as i32;
    let (band_top, band_end) = (canvas.y0 - y, canvas.y0 + canvas.rows - y);
    let first = if band_top < 0 { 0 } else if band_top > s { s } else { band_top };
    let last = if band_end < 0 { 0 } else if band_end > s { s } else { band_end };
    if first >= last {
        assert forall|i: int| 0 <= i < prior.len() implies #[trigger] canvas.px@[i] == icon_pixel(atlas@, icon as int, prior[i],
            column(bw, i), line(bw, by0, i), x as int, y as int, color) by {}
        return;
    }
    let packed = vstd::slice::slice_subrange(atlas, offset, atlas.len());
    let res = crate::bake::expand_tokens(packed, side * side);
    proof {
        let end = choose|end: int| #[trigger] crate::bake::tokens_end(packed@, 0, (side * side) as int, end);
        crate::bake::lemma_expand_len(packed@, 0, (side * side) as int, end);
        crate::bake::lemma_restore_len(res@, side as nat);
    }
    let coverage = crate::bake::restore_bytes(res.as_slice(), side);
    let mut row = first;
    while row < last
        invariant
            canvas.same_band(old(canvas)),
            old(canvas).wf(),
            canvas.wf(),
            bw == canvas.w,
            by0 == canvas.y0,
            prior == old(canvas).px@,
            canvas.px@.len() == prior.len(),
            side == icon_side(atlas@, icon as int),
            s == side,
            side <= 64,
            coverage@ == mask,
            mask == icon_mask(atlas@, icon as int),
            coverage@.len() == side * side,
            coordinate(x as int),
            coordinate(y as int),
            first == (if canvas.y0 - y < 0 { 0 } else if canvas.y0 - y > s { s as int } else { canvas.y0 - y }),
            last == (if canvas.y0 + canvas.rows - y < 0 { 0 } else if canvas.y0 + canvas.rows - y > s { s as int } else { canvas.y0 + canvas.rows - y }),
            first <= row <= last,
            forall|i: int|
                0 <= i < prior.len() ==> 0 <= #[trigger] column(bw, i) < bw && by0 <= line(bw, by0, i) < by0 + canvas.rows
                    && spot(bw, by0, column(bw, i), line(bw, by0, i)) == i,
            forall|ax: int, ay: int|
                0 <= ax < bw && by0 <= ay < by0 + canvas.rows ==> 0 <= #[trigger] spot(bw, by0, ax, ay) < prior.len()
                    && column(bw, spot(bw, by0, ax, ay)) == ax && line(bw, by0, spot(bw, by0, ax, ay)) == ay,
            forall|i: int|
                0 <= i < prior.len() ==> #[trigger] canvas.px@[i] == (if before(line(bw, by0, i) - y, column(bw, i) - x, row as int, 0) {
                    icon_pixel(atlas@, icon as int, prior[i], column(bw, i), line(bw, by0, i), x as int, y as int, color)
                } else {
                    prior[i]
                }),
        decreases last - row,
    {
        let mut col: i32 = 0;
        while col < s
            invariant
                canvas.same_band(old(canvas)),
                old(canvas).wf(),
                canvas.wf(),
                bw == canvas.w,
                by0 == canvas.y0,
                canvas.px@.len() == prior.len(),
                side == icon_side(atlas@, icon as int),
                s == side,
                side <= 64,
                coverage@ == mask,
                mask == icon_mask(atlas@, icon as int),
                coverage@.len() == side * side,
                coordinate(x as int),
                coordinate(y as int),
                0 <= row < s,
                by0 <= y + row < by0 + canvas.rows,
                0 <= col <= s,
                forall|i: int|
                    0 <= i < prior.len() ==> 0 <= #[trigger] column(bw, i) < bw && by0 <= line(bw, by0, i) < by0 + canvas.rows
                        && spot(bw, by0, column(bw, i), line(bw, by0, i)) == i,
                forall|ax: int, ay: int|
                    0 <= ax < bw && by0 <= ay < by0 + canvas.rows ==> 0 <= #[trigger] spot(bw, by0, ax, ay) < prior.len()
                        && column(bw, spot(bw, by0, ax, ay)) == ax && line(bw, by0, spot(bw, by0, ax, ay)) == ay,
                forall|i: int|
                    0 <= i < prior.len() ==> #[trigger] canvas.px@[i] == (if before(line(bw, by0, i) - y, column(bw, i) - x, row as int, col as int) {
                        icon_pixel(atlas@, icon as int, prior[i], column(bw, i), line(bw, by0, i), x as int, y as int, color)
                    } else {
                        prior[i]
                    }),
            decreases s - col,
        {
            proof {
                lemma_cell(side as int, row as int, col as int);
            }
            let alpha = coverage[(row as usize) * side + col as usize];
            let ghost was = canvas.px@;
            let ghost k = spot(bw, by0, (x + col) as int, (y + row) as int);
            assert(0 <= (x + col) < bw ==> column(bw, k) - x == col && line(bw, by0, k) - y == row);
            assert(alpha == mask[row * side + col]);
            if alpha != 0 {
                canvas.blend(x + col, y + row, color, alpha);
            }
            proof {
                assert forall|i: int| 0 <= i < prior.len() implies #[trigger] canvas.px@[i] == (if before(line(bw, by0, i) - y,
                    column(bw, i) - x, row as int, col + 1) {
                    icon_pixel(atlas@, icon as int, prior[i], column(bw, i), line(bw, by0, i), x as int, y as int, color)
                } else {
                    prior[i]
                }) by {
                    if line(bw, by0, i) - y == row && column(bw, i) - x == col {
                        assert(i == k);
                        assert(was[i] == prior[i]);
                        assert(icon_side(atlas@, icon as int) == side);
                        assert(icon_mask(atlas@, icon as int)[(line(bw, by0, i) - y) * side + (column(bw, i) - x)] == alpha);
                        if alpha != 0 {
                            assert(canvas.px@[i] == blended(was[i], color, alpha as int, alpha as int, alpha as int));
                        } else {
                            assert(canvas.px@[i] == was[i]);
                        }
                    } else {
                        assert(canvas.px@[i] == was[i]);
                    }
                }
            }
            col = col + 1;
        }
        row = row + 1;
    }
}

/// Draws icon `icon` of `atlas` centred on (`cx`, `cy`).
pub fn draw_centered(canvas: &mut Canvas, atlas: &[u8], cx: i32, cy: i32, icon: usize, color: u32)
    requires
        old(canvas).wf(),
        icon_ready(atlas@, icon as int),
        -0x0F00_0000 <= cx <= 0x0F00_0000,
        -0x0F00_0000 <= cy <= 0x0F00_0000,
    ensures
        final(canvas).wf(),
        final(canvas).drawn(
            old(canvas),
            (|i: int, p: u32|
                icon_pixel(atlas@, icon as int, p, column(old(canvas).w as int, i), line(old(canvas).w as int, old(canvas).y0 as int, i),
                    cx - icon_side(atlas@, icon as int) / 2, cy - icon_side(atlas@, icon as int) / 2, color)),
        ),
{
    let alen = atlas.len();
    assert(entry_at(icon as int) + ENTRY_BYTES <= alen);
    let half = (atlas[1 + icon * ENTRY_BYTES] as i32) / 2;
    draw(canvas, atlas, cx - half, cy - half, icon, color);
}

} // verus!
