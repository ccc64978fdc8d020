//! The preview of a photo, video or document: its decoded pixels shrunk to fit `THUMB_SIDE` on a
//! side, each pixel of the preview the average of the block of source pixels it stands for, in
//! RGB565, little-endian. (Decoding the JPEG is the engine's.)

use vstd::prelude::*;
use crate::screen::THUMB_SIDE;

verus! {

/// The largest side a decoded picture has (a JPEG's limit).
pub const MAX_SIDE: usize = 65535;

/// How many source pixels a preview pixel stands for on a side.
pub open spec fn shrink_scale(width: int, height: int) -> int {
    let side = if width > height { width } else { height };
    let s = (side + THUMB_SIDE - 1) / (THUMB_SIDE as int);
    if s < 1 { 1 } else { s }
}

/// Part `part` (red, green, blue) of source pixel (`sx`, `sy`); a grey picture has one part.
pub open spec fn source_part(pixels: Seq<u8>, width: int, channels: int, part: int, sx: int, sy: int) -> int {
    pixels[(sy * width + sx) * channels + if channels == 3 { part } else { 0 }] as int
}

/// The sum of part `part` over source pixels `x0..x1` of row `sy`.
pub open spec fn row_sum(pixels: Seq<u8>, width: int, channels: int, part: int, sy: int, x0: int, x1: int) -> int
    decreases x1 - x0,
{
    if x1 <= x0 { 0 } else { row_sum(pixels, width, channels, part, sy, x0, x1 - 1) + source_part(pixels, width, channels, part, x1 - 1, sy) }
}

/// The sum of part `part` over the source block `x0..x1` by `y0..y1`.
pub open spec fn block_sum(pixels: Seq<u8>, width: int, channels: int, part: int, x0: int, x1: int, y0: int, y1: int) -> int
    decreases y1 - y0,
{
    if y1 <= y0 { 0 } else { block_sum(pixels, width, channels, part, x0, x1, y0, y1 - 1) + row_sum(pixels, width, channels, part, y1 - 1, x0, x1) }
}

pub open spec fn min(a: int, b: int) -> int {
    if a < b { a } else { b }
}

/// Preview pixel (`x`, `y`) in RGB565: the average of its block of source pixels.
pub open spec fn preview_word(pixels: Seq<u8>, width: int, height: int, channels: int, x: int, y: int) -> int {
    let s = shrink_scale(width, height);
    let x0 = x * s;
    let x1 = min((x + 1) * s, width);
    let y0 = y * s;
    let y1 = min((y + 1) * s, height);
    let count = (x1 - x0) * (y1 - y0);
    let n = if count < 1 { 1 } else { count };
    let r = block_sum(pixels, width, channels, 0, x0, x1, y0, y1) / n;
    let g = block_sum(pixels, width, channels, 1, x0, x1, y0, y1) / n;
    let b = block_sum(pixels, width, channels, 2, x0, x1, y0, y1) / n;
    (r / 8) * 2048 + (g / 4) * 32 + b / 8
}


/// A block sum is at most 255 for each pixel in it, and not negative.
proof fn lemma_block_bound(pixels: Seq<u8>, width: int, channels: int, part: int, x0: int, x1: int, y0: int, y1: int)
    requires
        x0 <= x1,
        y0 <= y1,
    ensures
        0 <= block_sum(pixels, width, channels, part, x0, x1, y0, y1) <= 255 * (x1 - x0) * (y1 - y0),
    decreases y1 - y0,
{
    if y1 > y0 {
        lemma_block_bound(pixels, width, channels, part, x0, x1, y0, y1 - 1);
        lemma_row_bound(pixels, width, channels, part, y1 - 1, x0, x1);
        assert(255 * (x1 - x0) * (y1 - 1 - y0) + 255 * (x1 - x0) == 255 * (x1 - x0) * (y1 - y0)) by (nonlinear_arith);
    }
}

proof fn lemma_row_bound(pixels: Seq<u8>, width: int, channels: int, part: int, sy: int, x0: int, x1: int)
    requires
        x0 <= x1,
    ensures
        0 <= row_sum(pixels, width, channels, part, sy, x0, x1) <= 255 * (x1 - x0),
    decreases x1 - x0,
{
    if x1 > x0 {
        lemma_row_bound(pixels, width, channels, part, sy, x0, x1 - 1);
    }
}

/// The sum of part `part` over source pixels `x0..x1` of row `sy`.
fn sum_row(pixels: &[u8], width: usize, channels: usize, part: usize, sy: usize, x0: usize, x1: usize) -> (sum: u32)
    requires
        x0 <= x1 <= width,
        sy * width + width <= 0x1_0000_0000 * 0x1_0000,
        (channels == 1 || channels == 3) && part < 3,
        (sy + 1) * width * channels <= pixels@.len(),
        x1 - x0 <= MAX_SIDE,
    ensures
        sum == row_sum(pixels@, width as int, channels as int, part as int, sy as int, x0 as int, x1 as int),
{
    let mut sum: u32 = 0;
    let mut sx = x0;
    let total = pixels.len();
    while sx < x1
        invariant
            total == pixels@.len(),
            x0 <= sx <= x1 <= width,
            (channels == 1 || channels == 3) && part < 3,
            (sy + 1) * width * channels <= pixels@.len(),
            x1 - x0 <= MAX_SIDE,
            sum == row_sum(pixels@, width as int, channels as int, part as int, sy as int, x0 as int, sx as int),
        decreases x1 - sx,
    {
        proof { lemma_row_bound(pixels@, width as int, channels as int, part as int, sy as int, x0 as int, sx as int); }
        let offset: usize = if channels == 3 { part } else { 0 };
        assert(sy * width <= sy * width + sx <= (sy * width + sx) * channels
            && (sy * width + sx) * channels + offset < (sy + 1) * width * channels) by (nonlinear_arith)
            requires sx < width, offset < channels, channels >= 1;
        let at = (sy * width + sx) * channels + offset;
        sum = sum + pixels[at] as u32;
        sx = sx + 1;
    }
    sum
}


/// The sum of part `part` over the source block `x0..x1` by `y0..y1`.
fn sum_block(pixels: &[u8], width: usize, height: usize, channels: usize, part: usize, x0: usize, x1: usize, y0: usize, y1: usize) -> (sum: u32)
    requires
        x0 <= x1 <= width <= MAX_SIDE,
        y0 <= y1 <= height <= MAX_SIDE,
        (channels == 1 || channels == 3) && part < 3,
        width * height * channels <= pixels@.len(),
        x1 - x0 <= 1366 && y1 - y0 <= 1366,
    ensures
        sum == block_sum(pixels@, width as int, channels as int, part as int, x0 as int, x1 as int, y0 as int, y1 as int),
{
    let mut sum: u32 = 0;
    let mut sy = y0;
    while sy < y1
        invariant
            y0 <= sy <= y1 <= height <= MAX_SIDE,
            x0 <= x1 <= width <= MAX_SIDE,
            (channels == 1 || channels == 3) && part < 3,
            width * height * channels <= pixels@.len(),
            x1 - x0 <= 1366 && y1 - y0 <= 1366,
            sum == block_sum(pixels@, width as int, channels as int, part as int, x0 as int, x1 as int, y0 as int, sy as int),
        decreases y1 - sy,
    {
        proof {
            lemma_block_bound(pixels@, width as int, channels as int, part as int, x0 as int, x1 as int, y0 as int, sy as int);
            lemma_row_bound(pixels@, width as int, channels as int, part as int, sy as int, x0 as int, x1 as int);
            assert(255 * (x1 - x0) * (sy - y0) + 255 * (x1 - x0) <= 255 * 1366 * 1366) by (nonlinear_arith)
                requires x1 - x0 <= 1366, sy - y0 < 1366, x1 >= x0, sy >= y0;
            assert((sy + 1) * width * channels <= width * height * channels) by (nonlinear_arith)
                requires sy < height;
            assert(sy * width + width <= 0x1_0000_0000 * 0x1_0000) by (nonlinear_arith)
                requires sy < 65535, width <= 65535;
        }
        let row = sum_row(pixels, width, channels, part, sy, x0, x1);
        sum = sum + row;
        sy = sy + 1;
    }
    sum
}

/// Preview pixel (`x`, `y`) in RGB565.
#[verifier::rlimit(100)]
fn preview_pixel(pixels: &[u8], width: usize, height: usize, channels: usize, scale: usize, w: usize, h: usize, x: usize, y: usize) -> (word: u32)
    requires
        y < h <= THUMB_SIDE,
        x < w <= THUMB_SIDE,
        1 <= scale <= 1366,
        scale as int == shrink_scale(width as int, height as int),
        w == (if width / scale > 0 { width / scale } else { 1 }),
        h == (if height / scale > 0 { height / scale } else { 1 }),
        1 <= width <= MAX_SIDE && 1 <= height <= MAX_SIDE,
        channels == 1 || channels == 3,
        width * height * channels <= pixels@.len(),
    ensures
        word as int == preview_word(pixels@, width as int, height as int, channels as int, x as int, y as int),
        word < 65536,
{
            assert(x * scale < width || x == 0) by (nonlinear_arith)
        requires x < w, w == (if width / scale > 0 { width / scale } else { 1 }), scale >= 1, width >= 1;
    assert(y * scale < height || y == 0) by (nonlinear_arith)
        requires y < h, h == (if height / scale > 0 { height / scale } else { 1 }), scale >= 1, height >= 1;
    assert((x + 1) * scale <= 48 * 1366 && (y + 1) * scale <= 48 * 1366) by (nonlinear_arith)
        requires x < 48, y < 48, scale <= 1366;
    let x0 = x * scale;
    let x1 = if (x + 1) * scale < width { (x + 1) * scale } else { width };
    let y0 = y * scale;
    let y1 = if (y + 1) * scale < height { (y + 1) * scale } else { height };
    assert(x0 <= x1 && y0 <= y1 && x1 - x0 <= scale && y1 - y0 <= scale) by (nonlinear_arith)
        requires x0 == x * scale, y0 == y * scale, x1 == (if (x + 1) * scale < width { (x + 1) * scale } else { width as int }),
            y1 == (if (y + 1) * scale < height { (y + 1) * scale } else { height as int }),
            x * scale < width || x == 0, y * scale < height || y == 0, scale >= 1;
    let r = sum_block(pixels, width, height, channels, 0, x0, x1, y0, y1);
    let g = sum_block(pixels, width, height, channels, 1, x0, x1, y0, y1);
    let b = sum_block(pixels, width, height, channels, 2, x0, x1, y0, y1);
    assert((x1 - x0) * (y1 - y0) <= 1366 * 1366) by (nonlinear_arith)
        requires x1 - x0 <= 1366, y1 - y0 <= 1366, x1 >= x0, y1 >= y0;
    proof {
        lemma_block_bound(pixels@, width as int, channels as int, 0, x0 as int, x1 as int, y0 as int, y1 as int);
        lemma_block_bound(pixels@, width as int, channels as int, 1, x0 as int, x1 as int, y0 as int, y1 as int);
        lemma_block_bound(pixels@, width as int, channels as int, 2, x0 as int, x1 as int, y0 as int, y1 as int);
    }
    let count0 = (x1 - x0) * (y1 - y0);
    let count: u32 = if count0 < 1 { 1 } else { count0 as u32 };
    assert(r <= 255 * count && g <= 255 * count && b <= 255 * count) by (nonlinear_arith)
        requires r <= 255 * (x1 - x0) * (y1 - y0), g <= 255 * (x1 - x0) * (y1 - y0), b <= 255 * (x1 - x0) * (y1 - y0),
            count0 == (x1 - x0) * (y1 - y0), count == (if count0 < 1 { 1 } else { count0 }), x1 >= x0, y1 >= y0;
    let (rr, gg, bb) = (r / count, g / count, b / count);
    assert(rr <= 255 && gg <= 255 && bb <= 255) by (nonlinear_arith)
        requires rr == r / count, gg == g / count, bb == b / count, count >= 1,
            r <= 255 * count, g <= 255 * count, b <= 255 * count;
    let word: u32 = (rr / 8) * 2048 + (gg / 4) * 32 + bb / 8;
    assert(word as int == preview_word(pixels@, width as int, height as int, channels as int, x as int, y as int));
    word
}

/// The preview of a decoded picture `width` by `height` with `channels` parts a pixel (3 for RGB,
/// 1 for grey): (width, height, rows of little-endian RGB565 pixels). `None` for an empty picture,
/// one whose pixels are missing, or another kind of pixel.
#[verifier::rlimit(100)]
#[verifier::spinoff_prover]
pub fn shrink(pixels: &[u8], width: usize, height: usize, channels: usize) -> (preview: Option<(usize, usize, Vec<u8>)>)
    requires
        width <= MAX_SIDE,
        height <= MAX_SIDE,
    ensures
        preview is None <==> (width == 0 || height == 0 || !(channels == 1 || channels == 3) || pixels@.len() < width * height * channels),
        preview matches Some((w, h, out)) ==> ({
            let s = shrink_scale(width as int, height as int);
            &&& w as int == (if width as int / s > 0 { width as int / s } else { 1 }) && h as int == (if height as int / s > 0 { height as int / s } else { 1 })
            &&& w <= THUMB_SIDE && h <= THUMB_SIDE
            &&& out@.len() == 2 * w * h
            &&& forall|x: int, y: int| 0 <= x < w && 0 <= y < h ==> {
                let word = #[trigger] preview_word(pixels@, width as int, height as int, channels as int, x, y);
                out@[2 * (y * w + x)] == word % 256 && out@[2 * (y * w + x) + 1] == word / 256
            }
        }),
{
    if width == 0 || height == 0 || !(channels == 1 || channels == 3) {
        return None;
    }
    assert(width * height * channels <= 65535 * 65535 * 3) by (nonlinear_arith)
        requires width <= 65535, height <= 65535, channels <= 3;
    if (pixels.len() as u64) < (width as u64) * (height as u64) * (channels as u64) {
        return None;
    }
    let side = if width > height { width } else { height };
    let scale0 = (side + THUMB_SIDE - 1) / THUMB_SIDE;
    let scale = if scale0 < 1 { 1 } else { scale0 };
    assert(scale as int == shrink_scale(width as int, height as int));
    assert(scale <= 1366);
    let w = if width / scale > 0 { width / scale } else { 1 };
    let h = if height / scale > 0 { height / scale } else { 1 };
    assert(w <= THUMB_SIDE && h <= THUMB_SIDE) by (nonlinear_arith)
        requires scale == (if (side + 47) / 48 < 1 { 1 } else { (side + 47) / 48 }), side >= width, side >= height,
            w == (if width / scale > 0 { width / scale } else { 1 }), h == (if height / scale > 0 { height / scale } else { 1 }),
            width >= 1, height >= 1;
    let mut out: Vec<u8> = Vec::new();
    let mut y: usize = 0;
    while y < h
        invariant
            0 <= y <= h <= THUMB_SIDE,
            1 <= w <= THUMB_SIDE,
            1 <= scale <= 1366,
            scale as int == shrink_scale(width as int, height as int),
            w == (if width / scale > 0 { width / scale } else { 1 }),
            h == (if height / scale > 0 { height / scale } else { 1 }),
            1 <= width <= MAX_SIDE && 1 <= height <= MAX_SIDE,
            channels == 1 || channels == 3,
            width * height * channels <= pixels@.len(),
            out@.len() == 2 * w * y,
            forall|xx: int, yy: int| 0 <= xx < w && 0 <= yy < y ==> {
                let word = #[trigger] preview_word(pixels@, width as int, height as int, channels as int, xx, yy);
                out@[2 * (yy * w + xx)] == word % 256 && out@[2 * (yy * w + xx) + 1] == word / 256
            },
        decreases h - y,
    {
        let mut x: usize = 0;
        assert(2 * w * y == 2 * (w * y + 0)) by (nonlinear_arith);
        while x < w
            invariant
                0 <= y < h <= THUMB_SIDE,
                0 <= x <= w <= THUMB_SIDE,
                1 <= scale <= 1366,
                scale as int == shrink_scale(width as int, height as int),
                w == (if width / scale > 0 { width / scale } else { 1 }),
                h == (if height / scale > 0 { height / scale } else { 1 }),
                1 <= width <= MAX_SIDE && 1 <= height <= MAX_SIDE,
                channels == 1 || channels == 3,
                width * height * channels <= pixels@.len(),
                out@.len() == 2 * (w * y + x),
                forall|xx: int, yy: int| 0 <= xx < w && 0 <= yy < y ==> {
                    let word = #[trigger] preview_word(pixels@, width as int, height as int, channels as int, xx, yy);
                    out@[2 * (yy * w + xx)] == word % 256 && out@[2 * (yy * w + xx) + 1] == word / 256
                },
                forall|xx: int| 0 <= xx < x ==> {
                    let word = #[trigger] preview_word(pixels@, width as int, height as int, channels as int, xx, y as int);
                    out@[2 * (y * w + xx)] == word % 256 && out@[2 * (y * w + xx) + 1] == word / 256
                },
            decreases w - x,
        {
            let word = preview_pixel(pixels, width, height, channels, scale, w, h, x, y);
            let ghost before = out@;
            out.push((word % 256) as u8);
            out.push((word / 256) as u8);
            proof {
                assert(2 * (y * w + x) == before.len()) by (nonlinear_arith)
                    requires before.len() == 2 * (w * y + x);
                assert(out@.len() == 2 * (w * y + x + 1));
                assert forall|xx: int, yy: int| 0 <= xx < w && 0 <= yy < y implies {
                    let word = #[trigger] preview_word(pixels@, width as int, height as int, channels as int, xx, yy);
                    out@[2 * (yy * w + xx)] == word % 256 && out@[2 * (yy * w + xx) + 1] == word / 256
                } by {
                    assert(2 * (yy * w + xx) + 1 < before.len()) by (nonlinear_arith)
                        requires xx < w, yy < y, before.len() == 2 * (w * y + x), x >= 0;
                }
                assert forall|xx: int| 0 <= xx < x + 1 implies {
                    let word = #[trigger] preview_word(pixels@, width as int, height as int, channels as int, xx, y as int);
                    out@[2 * (y * w + xx)] == word % 256 && out@[2 * (y * w + xx) + 1] == word / 256
                } by {
                    if xx < x {
                        assert(2 * (y * w + xx) + 1 < before.len()) by (nonlinear_arith)
                            requires xx < x, before.len() == 2 * (w * y + x);
                    }
                }
            }
            x = x + 1;
        }
        proof {
            assert(out@.len() == 2 * w * (y + 1)) by (nonlinear_arith)
                requires out@.len() == 2 * (w * y + w);
        }
        y = y + 1;
    }
    Some((w, h, out))
}

/// Part `part` of pixel number `i` of an RGB picture.
pub open spec fn rgb_part(pixels: Seq<u8>, i: int, part: int) -> u8 {
    pixels[3 * i + part]
}

/// Whether every pixel of a `width` by `height` RGB picture is (`r`, `g`, `b`).
pub open spec fn one_colour(pixels: Seq<u8>, width: int, height: int, r: u8, g: u8, b: u8) -> bool {
    &&& pixels.len() >= 3 * width * height
    &&& forall|i: int| 0 <= i < width * height ==> #[trigger] rgb_part(pixels, i, 0) == r && rgb_part(pixels, i, 1) == g
        && rgb_part(pixels, i, 2) == b
}

proof fn lemma_row_one_colour(pixels: Seq<u8>, width: int, height: int, r: u8, g: u8, b: u8, part: int, sy: int, x0: int, x1: int)
    requires
        one_colour(pixels, width, height, r, g, b),
        0 <= part < 3,
        0 <= sy < height,
        0 <= x0 <= x1 <= width,
    ensures
        row_sum(pixels, width, 3, part, sy, x0, x1) == (if part == 0 { r as int } else if part == 1 { g as int } else { b as int }) * (x1 - x0),
    decreases x1 - x0,
{
    let v = if part == 0 { r as int } else if part == 1 { g as int } else { b as int };
    if x1 > x0 {
        lemma_row_one_colour(pixels, width, height, r, g, b, part, sy, x0, x1 - 1);
        let i = sy * width + (x1 - 1);
        assert(0 <= i < width * height) by (nonlinear_arith)
            requires i == sy * width + (x1 - 1), 0 <= sy < height, 0 <= x1 - 1 < width;
        assert((sy * width + (x1 - 1)) * 3 == 3 * i) by (nonlinear_arith)
            requires i == sy * width + (x1 - 1);
        assert(0 <= i < width * height);
        assert(rgb_part(pixels, i, 0) == r);
        assert(rgb_part(pixels, i, 1) == g);
        assert(rgb_part(pixels, i, 2) == b);
        assert(source_part(pixels, width, 3, part, x1 - 1, sy) == v);
        assert(v * (x1 - 1 - x0) + v == v * (x1 - x0)) by (nonlinear_arith);
    } else {
        assert(v * (x1 - x0) == 0) by (nonlinear_arith) requires x1 == x0;
    }
}

proof fn lemma_block_one_colour(pixels: Seq<u8>, width: int, height: int, r: u8, g: u8, b: u8, part: int,
    x0: int, x1: int, y0: int, y1: int)
    requires
        one_colour(pixels, width, height, r, g, b),
        0 <= part < 3,
        0 <= x0 <= x1 <= width,
        0 <= y0 <= y1 <= height,
    ensures
        block_sum(pixels, width, 3, part, x0, x1, y0, y1)
            == (if part == 0 { r as int } else if part == 1 { g as int } else { b as int }) * ((x1 - x0) * (y1 - y0)),
    decreases y1 - y0,
{
    let v = if part == 0 { r as int } else if part == 1 { g as int } else { b as int };
    if y1 > y0 {
        lemma_block_one_colour(pixels, width, height, r, g, b, part, x0, x1, y0, y1 - 1);
        lemma_row_one_colour(pixels, width, height, r, g, b, part, y1 - 1, x0, x1);
        assert(v * ((x1 - x0) * (y1 - 1 - y0)) + v * (x1 - x0) == v * ((x1 - x0) * (y1 - y0))) by (nonlinear_arith);
    } else {
        assert(v * ((x1 - x0) * (y1 - y0)) == 0) by (nonlinear_arith) requires y1 == y0;
    }
}

/// A picture of one colour keeps it: every pixel of its preview is that colour in RGB565, red in
/// the top five bits, green in the middle six, blue in the low five.
pub proof fn lemma_one_colour_preview(pixels: Seq<u8>, width: int, height: int, r: u8, g: u8, b: u8, x: int, y: int)
    requires
        1 <= width <= MAX_SIDE,
        1 <= height <= MAX_SIDE,
        one_colour(pixels, width, height, r, g, b),
        0 <= x < (if width / shrink_scale(width, height) > 0 { width / shrink_scale(width, height) } else { 1 }),
        0 <= y < (if height / shrink_scale(width, height) > 0 { height / shrink_scale(width, height) } else { 1 }),
    ensures
        preview_word(pixels, width, height, 3, x, y) == (r as int / 8) * 2048 + (g as int / 4) * 32 + b as int / 8,
{
    let s = shrink_scale(width, height);
    assert(s >= 1);
    let w = if width / s > 0 { width / s } else { 1 };
    let h = if height / s > 0 { height / s } else { 1 };
    assert(x * s < width) by (nonlinear_arith)
        requires 0 <= x < w, w == (if width / s > 0 { width / s } else { 1 }), s >= 1, width >= 1;
    assert(y * s < height) by (nonlinear_arith)
        requires 0 <= y < h, h == (if height / s > 0 { height / s } else { 1 }), s >= 1, height >= 1;
    let x0 = x * s;
    let x1 = min((x + 1) * s, width);
    let y0 = y * s;
    let y1 = min((y + 1) * s, height);
    assert(0 <= x0 < x1 <= width && 0 <= y0 < y1 <= height) by (nonlinear_arith)
        requires x0 == x * s, y0 == y * s, x1 == min((x + 1) * s, width), y1 == min((y + 1) * s, height),
            x * s < width, y * s < height, s >= 1, x >= 0, y >= 0;
    let count = (x1 - x0) * (y1 - y0);
    assert(count >= 1) by (nonlinear_arith)
        requires count == (x1 - x0) * (y1 - y0), x1 - x0 >= 1, y1 - y0 >= 1;
    lemma_block_one_colour(pixels, width, height, r, g, b, 0, x0, x1, y0, y1);
    lemma_block_one_colour(pixels, width, height, r, g, b, 1, x0, x1, y0, y1);
    lemma_block_one_colour(pixels, width, height, r, g, b, 2, x0, x1, y0, y1);
    assert((r as int * count) / count == r as int) by (nonlinear_arith) requires count >= 1;
    assert((g as int * count) / count == g as int) by (nonlinear_arith) requires count >= 1;
    assert((b as int * count) / count == b as int) by (nonlinear_arith) requires count >= 1;
}

} // verus!
