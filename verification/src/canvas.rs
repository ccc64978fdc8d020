//! One band of the window's pixels, `rows` rows starting at window row `y0`, and the shapes drawn
//! on it: rectangles, rounded rectangles and discs, their edges smoothed by coverage.

use vstd::prelude::*;

verus! {

/// Red, green and blue of a colour 0xRRGGBB.
pub open spec fn red(v: u32) -> int {
    (v as int / 0x10000) % 0x100
}

pub open spec fn green(v: u32) -> int {
    (v as int / 0x100) % 0x100
}

pub open spec fn blue(v: u32) -> int {
    v as int % 0x100
}

/// One channel of `source` laid over `dest` with an opacity of `alpha` out of 255.
pub open spec fn mix(source: int, dest: int, alpha: int) -> int {
    (source * alpha + dest * (255 - alpha)) / 255
}

/// `color` laid over the pixel `dest`, with an opacity for each of red, green and blue. What was
/// above the low 24 bits of `dest` is dropped.
pub open spec fn blended(dest: u32, color: u32, ar: int, ag: int, ab: int) -> u32 {
    (mix(red(color), red(dest), ar) * 0x10000 + mix(green(color), green(dest), ag) * 0x100 + mix(
        blue(color),
        blue(dest),
        ab,
    )) as u32
}

/// The column of pixel `i` of a band `w` wide.
pub open spec fn column(w: int, i: int) -> int {
    i % w
}

/// The window row of pixel `i` of a band `w` wide starting at row `y0`.
pub open spec fn line(w: int, y0: int, i: int) -> int {
    i / w + y0
}

/// The pixel at column `x` of window row `y`.
pub open spec fn spot(w: int, y0: int, x: int, y: int) -> int {
    (y - y0) * w + x
}

/// Whether (`col`, `row`) lies in the rectangle at (`x`, `y`), `w` by `h`: nothing when either is
/// not positive.
pub open spec fn in_rect(col: int, row: int, x: int, y: int, w: int, h: int) -> bool {
    x <= col < x + w && y <= row < y + h
}

/// The coverage of a pixel at squared distance `d` (in half pixels) from the centre of an edge of
/// radius `r`: full inside `2r-1`, nothing from `2r+1`, linear in between.
pub open spec fn edge_alpha(d: int, r: int) -> int {
    let m = if 2 * r - 1 > 0 { 2 * r - 1 } else { 0 };
    let inner = m * m;
    let outer = (2 * r + 1) * (2 * r + 1);
    if d <= inner {
        255
    } else if d >= outer {
        0
    } else {
        255 * (outer - d) / (outer - inner)
    }
}

/// The coverage of the pixel (`dx`, `dy`) away from a disc's centre pixel.
pub open spec fn circle_alpha(dx: int, dy: int, r: int) -> int {
    edge_alpha(4 * (dx * dx + dy * dy), r)
}

/// The coverage of the pixel (`dx`, `dy`) pixels away from the centre corner of a rounded corner.
pub open spec fn corner_alpha(dx: int, dy: int, r: int) -> int {
    edge_alpha((2 * dx + 1) * (2 * dx + 1) + (2 * dy + 1) * (2 * dy + 1), r)
}

/// What a disc of radius `r` centred on pixel (`cx`, `cy`) makes of the pixel `old` at (`col`, `row`).
pub open spec fn disc_pixel(old: u32, col: int, row: int, cx: int, cy: int, r: int, color: u32) -> u32 {
    let (dx, dy) = (col - cx, row - cy);
    let a = circle_alpha(dx, dy, r);
    if -r - 1 <= dx <= r + 1 && -r - 1 <= dy <= r + 1 && a != 0 {
        blended(old, color, a, a, a)
    } else {
        old
    }
}

/// `v / 2` rounded towards zero.
pub open spec fn half(v: int) -> int {
    if v >= 0 {
        v / 2
    } else {
        -((-v) / 2)
    }
}

/// The radius of the corners of a `w` by `h` rectangle asked to have radius `r`: at most half
/// of either side.
pub open spec fn corner_radius(r: int, w: int, h: int) -> int {
    let a = if r < half(w) { r } else { half(w) };
    if a < half(h) { a } else { half(h) }
}

/// How far `v` lies inside one of the two corner strips `k` wide at the ends of the span
/// [`lo`, `lo + span`), counted from the strip's inner edge; -1 outside both.
pub open spec fn arc_offset(lo: int, span: int, k: int, v: int) -> int {
    if lo <= v < lo + k {
        lo + k - 1 - v
    } else if lo + span - k <= v < lo + span {
        v - (lo + span - k)
    } else {
        -1
    }
}

/// Whether (`col`, `row`) lies in the cross of full rectangles of a rounded rectangle whose
/// corners have radius `k`.
pub open spec fn in_cross(col: int, row: int, x: int, y: int, w: int, h: int, k: int) -> bool {
    in_rect(col, row, x + k, y, w - 2 * k, h) || in_rect(col, row, x, y + k, k, h - 2 * k) || in_rect(
        col,
        row,
        x + w - k,
        y + k,
        k,
        h - 2 * k,
    )
}

/// What a rounded rectangle makes of the pixel `old` at (`col`, `row`).
pub open spec fn round_rect_pixel(
    old: u32,
    col: int,
    row: int,
    x: int,
    y: int,
    w: int,
    h: int,
    r: int,
    color: u32,
) -> u32 {
    let k = corner_radius(r, w, h);
    let (ox, oy) = (arc_offset(x, w, k, col), arc_offset(y, h, k, row));
    if ox >= 0 && oy >= 0 {
        let a = corner_alpha(ox, oy, k);
        if a != 0 {
            blended(old, color, a, a, a)
        } else {
            old
        }
    } else if in_cross(col, row, x, y, w, h, k) {
        color
    } else {
        old
    }
}

/// Whether (`a`, `b`) comes before (`c`, `d`), rows first.
pub open spec fn before(a: int, b: int, c: int, d: int) -> bool {
    a < c || (a == c && b < d)
}

/// A corner pixel `(ox, oy)` from the centre corner of a corner of radius `k`, `old` before.
pub open spec fn corner_pixel(old: u32, ox: int, oy: int, k: int, color: u32) -> u32 {
    let a = corner_alpha(ox, oy, k);
    if a != 0 {
        blended(old, color, a, a, a)
    } else {
        old
    }
}

/// Coordinates that the canvas's integer maths can hold.
pub open spec fn coordinate(v: int) -> bool {
    -0x1000_0000 <= v <= 0x1000_0000
}

/// A radius the coverage maths can hold.
pub open spec fn radius(r: int) -> bool {
    -10000 <= r <= 10000
}

/// Pixel `i` of the band lies at (`column`, `line`), inside the band, and the pixel of a point of
/// the band is found again where `spot` says.
pub proof fn lemma_grid(w: int, y0: int, rows: int)
    requires
        w >= 0,
        rows >= 0,
    ensures
        forall|i: int|
            0 <= i < w * rows ==> 0 <= #[trigger] column(w, i) < w && y0 <= line(w, y0, i) < y0 + rows
                && spot(w, y0, column(w, i), line(w, y0, i)) == i,
        forall|x: int, y: int|
            0 <= x < w && y0 <= y < y0 + rows ==> 0 <= #[trigger] spot(w, y0, x, y) < w * rows
                && column(w, spot(w, y0, x, y)) == x && line(w, y0, spot(w, y0, x, y)) == y,
{
    assert forall|i: int| 0 <= i < w * rows implies 0 <= #[trigger] column(w, i) < w && y0 <= line(w, y0, i)
        < y0 + rows && spot(w, y0, column(w, i), line(w, y0, i)) == i by {
        assert(w > 0) by (nonlinear_arith)
            requires
                0 <= i < w * rows,
                w >= 0,
                rows >= 0,
        ;
        vstd::arithmetic::div_mod::lemma_fundamental_div_mod(i, w);
        vstd::arithmetic::div_mod::lemma_mod_pos_bound(i, w);
        let q = i / w;
        assert(0 <= q < rows) by (nonlinear_arith)
            requires
                i == w * q + i % w,
                0 <= i % w < w,
                0 <= i < w * rows,
                w > 0,
        ;
        assert(spot(w, y0, column(w, i), line(w, y0, i)) == q * w + i % w);
        assert(q * w == w * q) by (nonlinear_arith);
    }
    assert forall|x: int, y: int| 0 <= x < w && y0 <= y < y0 + rows implies 0 <= #[trigger] spot(w, y0, x, y)
        < w * rows && column(w, spot(w, y0, x, y)) == x && line(w, y0, spot(w, y0, x, y)) == y by {
        let q = y - y0;
        let s = spot(w, y0, x, y);
        assert(s == q * w + x);
        assert(0 <= s < w * rows) by (nonlinear_arith)
            requires
                s == q * w + x,
                0 <= x < w,
                0 <= q < rows,
        ;
        vstd::arithmetic::div_mod::lemma_fundamental_div_mod_converse(s, w, q, x);
    }
}

/// One channel of `source` laid over `dest`.
fn mix_channel(source: u32, dest: u32, alpha: u32) -> (m: u32)
    requires
        source < 256,
        dest < 256,
        alpha < 256,
    ensures
        m == mix(source as int, dest as int, alpha as int),
        m < 256,
{
    assert(source * alpha + dest * (255 - alpha) <= 255 * 255) by (nonlinear_arith)
        requires
            source < 256,
            dest < 256,
            alpha < 256,
    ;
    (source * alpha + dest * (255 - alpha)) / 255
}

/// `color` laid over `dest` with an opacity for each channel.
fn layered(dest: u32, color: u32, ar: u8, ag: u8, ab: u8) -> (p: u32)
    ensures
        p == blended(dest, color, ar as int, ag as int, ab as int),
{
    let r = mix_channel(color / 0x10000 % 0x100, dest / 0x10000 % 0x100, ar as u32);
    let g = mix_channel(color / 0x100 % 0x100, dest / 0x100 % 0x100, ag as u32);
    let b = mix_channel(color % 0x100, dest % 0x100, ab as u32);
    r * 0x10000 + g * 0x100 + b
}

/// How much of a pixel at squared distance `distance_squared` (in half pixels) from the centre of
/// an edge of radius `r` lies inside it.
fn edge_coverage(distance_squared: i32, r: i32) -> (alpha: u8)
    requires
        -1 <= r <= 10000,
        0 <= distance_squared,
    ensures
        alpha as int == edge_alpha(distance_squared as int, r as int),
{
    let m = if 2 * r - 1 > 0 { 2 * r - 1 } else { 0 };
    assert(m * m <= 400_000_000) by (nonlinear_arith)
        requires
            0 <= m <= 20000,
    ;
    assert(0 <= (2 * r + 1) * (2 * r + 1) <= 400_040_001) by (nonlinear_arith)
        requires
            -1 <= r <= 10000,
    ;
    let inner = m * m;
    let outer = (2 * r + 1) * (2 * r + 1);
    if distance_squared <= inner {
        255
    } else if distance_squared >= outer {
        0
    } else {
        if r >= 1 {
            assert(outer - inner == 8 * r) by (nonlinear_arith)
                requires
                    m == 2 * r - 1,
                    inner == m * m,
                    outer == (2 * r + 1) * (2 * r + 1),
            ;
        } else {
            assert(m == 0);
            assert(outer == 1) by (nonlinear_arith)
                requires
                    outer == (2 * r + 1) * (2 * r + 1),
                    -1 <= r <= 0,
            ;
        }
        let den = outer - inner;
        let num = 255 * (outer - distance_squared);
        let a = num / den;
        assert(a < 255) by (nonlinear_arith)
            requires
                a == num / den,
                0 < num < 255 * den,
                den > 0,
        ;
        a as u8
    }
}

/// How much of the pixel (`dx`, `dy`) away from a disc's centre pixel lies inside radius `r`.
fn circle_coverage(dx: i32, dy: i32, r: i32) -> (alpha: u8)
    requires
        -10001 <= dx <= 10001,
        -10001 <= dy <= 10001,
        -1 <= r <= 10000,
    ensures
        alpha as int == circle_alpha(dx as int, dy as int, r as int),
{
    assert(0 <= dx * dx <= 100_020_001) by (nonlinear_arith)
        requires
            -10001 <= dx <= 10001,
    ;
    assert(0 <= dy * dy <= 100_020_001) by (nonlinear_arith)
        requires
            -10001 <= dy <= 10001,
    ;
    edge_coverage(4 * (dx * dx + dy * dy), r)
}

/// The same for a rounded corner, (`dx`, `dy`) counting pixels away from its centre corner.
fn corner_coverage(dx: i32, dy: i32, r: i32) -> (alpha: u8)
    requires
        0 <= dx < 10000,
        0 <= dy < 10000,
        -1 <= r <= 10000,
    ensures
        alpha as int == corner_alpha(dx as int, dy as int, r as int),
{
    assert(0 <= (2 * dx + 1) * (2 * dx + 1) <= 400_000_000) by (nonlinear_arith)
        requires
            0 <= dx < 10000,
    ;
    assert(0 <= (2 * dy + 1) * (2 * dy + 1) <= 400_000_000) by (nonlinear_arith)
        requires
            0 <= dy < 10000,
    ;
    edge_coverage((2 * dx + 1) * (2 * dx + 1) + (2 * dy + 1) * (2 * dy + 1), r)
}

/// Pixels `rows` rows of `w`, the band of a window `h` tall whose first row is window row `y0`.
pub struct Canvas {
    pub px: Vec<u32>,
    pub w: i32,
    pub h: i32,
    pub y0: i32,
    pub rows: i32,
}

impl Canvas {
    /// The pixels fill the band exactly, and the band lies where the integer maths can reach it.
    pub open spec fn wf(&self) -> bool {
        &&& 0 <= self.w
        &&& 0 <= self.h
        &&& 0 <= self.rows
        &&& 0 <= self.y0
        &&& self.y0 + self.rows <= 0x1000_0000
        &&& self.w * self.rows <= i32::MAX
        &&& self.px@.len() == self.w * self.rows
    }

    /// Whether window point (`x`, `y`) has a pixel in the band.
    pub open spec fn holds(&self, x: int, y: int) -> bool {
        0 <= x < self.w && self.y0 <= y < self.y0 + self.rows
    }

    /// The same band, its pixels aside.
    pub open spec fn same_band(&self, other: &Canvas) -> bool {
        self.w == other.w && self.h == other.h && self.y0 == other.y0 && self.rows == other.rows
    }

    /// `self` is `prior` with each pixel `i` made `f(i)` of its old value.
    pub open spec fn drawn(&self, prior: &Canvas, f: spec_fn(int, u32) -> u32) -> bool {
        &&& self.same_band(prior)
        &&& self.px@.len() == prior.px@.len()
        &&& forall|i: int| 0 <= i < prior.px@.len() ==> #[trigger] self.px@[i] == f(i, prior.px@[i])
    }

    /// Lays `color` over the pixel at window point (`x`, `y`), with a separate opacity for each
    /// channel; a point outside the band is left alone.
    pub fn blend_lcd(&mut self, x: i32, y: i32, color: u32, coverage: [u8; 3])
        requires
            old(self).wf(),
            i32::MIN <= y - old(self).y0,
        ensures
            final(self).same_band(old(self)),
            final(self).wf(),
            final(self).px@ == (if old(self).holds(x as int, y as int) {
                old(self).px@.update(
                    spot(old(self).w as int, old(self).y0 as int, x as int, y as int),
                    blended(
                        old(self).px@[spot(old(self).w as int, old(self).y0 as int, x as int, y as int)],
                        color,
                        coverage@[0] as int,
                        coverage@[1] as int,
                        coverage@[2] as int,
                    ),
                )
            } else {
                old(self).px@
            }),
    {
        let y = y - self.y0;
        if x < 0 || y < 0 || x >= self.w || y >= self.rows {
            return;
        }
        proof {
            lemma_grid(self.w as int, self.y0 as int, self.rows as int);
            assert(0 <= spot(self.w as int, self.y0 as int, x as int, y + self.y0) < self.w * self.rows);
        }
        let at = (y * self.w + x) as usize;
        let p = layered(self.px[at], color, coverage[0], coverage[1], coverage[2]);
        self.px.set(at, p);
    }

    /// Lays `color` over the pixel at window point (`x`, `y`) with opacity `alpha`; a point outside
    /// the band is left alone.
    pub fn blend(&mut self, x: i32, y: i32, color: u32, alpha: u8)
        requires
            old(self).wf(),
            i32::MIN <= y - old(self).y0,
        ensures
            final(self).same_band(old(self)),
            final(self).wf(),
            final(self).px@ == (if old(self).holds(x as int, y as int) {
                old(self).px@.update(
                    spot(old(self).w as int, old(self).y0 as int, x as int, y as int),
                    blended(
                        old(self).px@[spot(old(self).w as int, old(self).y0 as int, x as int, y as int)],
                        color,
                        alpha as int,
                        alpha as int,
                        alpha as int,
                    ),
                )
            } else {
                old(self).px@
            }),
    {
        self.blend_lcd(x, y, color, [alpha, alpha, alpha]);
    }

    /// A disc of radius `r` centred on pixel (`cx`, `cy`), its edge smoothed by coverage.
    pub fn fill_circle(&mut self, cx: i32, cy: i32, r: i32, color: u32)
        requires
            old(self).wf(),
            coordinate(cx as int),
            coordinate(cy as int),
            radius(r as int),
        ensures
            final(self).wf(),
            final(self).drawn(
                old(self),
                (|i: int, p: u32|
                    disc_pixel(
                        p,
                        column(old(self).w as int, i),
                        line(old(self).w as int, old(self).y0 as int, i),
                        cx as int,
                        cy as int,
                        r as int,
                        color,
                    )),
            ),
    {
        let ghost prior = self.px@;
        let ghost (bw, by0) = (self.w as int, self.y0 as int);
        proof {
            lemma_grid(bw, by0, self.rows as int);
        }
        let lo = if -r - 1 > self.y0 - cy { -r - 1 } else { self.y0 - cy };
        let hi = if r + 1 < self.y0 + self.rows - 1 - cy { r + 1 } else { self.y0 + self.rows - 1 - cy };
        let mut dy = lo;
        while dy <= hi
            invariant
                self.same_band(old(self)),
                old(self).wf(),
                self.wf(),
                bw == self.w,
                by0 == self.y0,
                prior == old(self).px@,
                self.px@.len() == prior.len(),
                coordinate(cx as int),
                coordinate(cy as int),
                radius(r as int),
                lo == (if -r - 1 > self.y0 - cy { -r - 1 } else { self.y0 - cy }),
                hi == (if r + 1 < self.y0 + self.rows - 1 - cy { r + 1 } else { self.y0 + self.rows - 1 - cy }),
                lo <= dy,
                dy <= hi + 1 || dy == lo,
                forall|i: int|
                    0 <= i < prior.len() ==> 0 <= #[trigger] column(bw, i) < bw && by0 <= line(bw, by0, i) < by0
                        + self.rows && spot(bw, by0, column(bw, i), line(bw, by0, i)) == i,
                forall|ax: int, ay: int|
                    0 <= ax < bw && by0 <= ay < by0 + self.rows ==> 0 <= #[trigger] spot(bw, by0, ax, ay) < prior.len()
                        && column(bw, spot(bw, by0, ax, ay)) == ax && line(bw, by0, spot(bw, by0, ax, ay)) == ay,
                forall|i: int|
                    0 <= i < prior.len() ==> #[trigger] self.px@[i] == (if before(
                        line(bw, by0, i) - cy,
                        column(bw, i) - cx,
                        dy as int,
                        -r - 1,
                    ) {
                        disc_pixel(prior[i], column(bw, i), line(bw, by0, i), cx as int, cy as int, r as int, color)
                    } else {
                        prior[i]
                    }),
            decreases hi + 1 - dy,
        {
            let mut dx = -r - 1;
            while dx <= r + 1
                invariant
                    self.same_band(old(self)),
                    old(self).wf(),
                    self.wf(),
                    bw == self.w,
                    by0 == self.y0,
                    self.px@.len() == prior.len(),
                    coordinate(cx as int),
                    coordinate(cy as int),
                    radius(r as int),
                    -r - 1 <= dy <= r + 1,
                    by0 <= cy + dy < by0 + self.rows,
                    -r - 1 <= dx <= r + 2,
                    forall|i: int|
                        0 <= i < prior.len() ==> 0 <= #[trigger] column(bw, i) < bw && by0 <= line(bw, by0, i)
                            < by0 + self.rows && spot(bw, by0, column(bw, i), line(bw, by0, i)) == i,
                    forall|ax: int, ay: int|
                        0 <= ax < bw && by0 <= ay < by0 + self.rows ==> 0 <= #[trigger] spot(bw, by0, ax, ay)
                            < prior.len() && column(bw, spot(bw, by0, ax, ay)) == ax && line(
                            bw,
                            by0,
                            spot(bw, by0, ax, ay),
                        ) == ay,
                    forall|i: int|
                        0 <= i < prior.len() ==> #[trigger] self.px@[i] == (if before(
                            line(bw, by0, i) - cy,
                            column(bw, i) - cx,
                            dy as int,
                            dx as int,
                        ) {
                            disc_pixel(prior[i], column(bw, i), line(bw, by0, i), cx as int, cy as int, r as int, color)
                        } else {
                            prior[i]
                        }),
                decreases r + 2 - dx,
            {
                let alpha = circle_coverage(dx, dy, r);
                if alpha != 0 {
                    self.blend(cx + dx, cy + dy, color, alpha);
                }
                dx = dx + 1;
            }
            dy = dy + 1;
        }
    }

    /// Lays `color` with opacity `alpha` over the four pixels that lie (`dx`, `dy`) from the
    /// centre corners of the corners of radius `k` of the rectangle at (`x`, `y`), `w` by `h`.
    fn blend_corners(&mut self, x: i32, y: i32, w: i32, h: i32, k: i32, dx: i32, dy: i32, color: u32, alpha: u8)
        requires
            old(self).wf(),
            coordinate(x as int),
            coordinate(y as int),
            coordinate(w as int),
            coordinate(h as int),
            0 <= dx < k <= 10000,
            0 <= dy < k,
            2 * k <= w,
            2 * k <= h,
        ensures
            final(self).wf(),
            final(self).drawn(
                old(self),
                (|i: int, p: u32|
                    if arc_offset(x as int, w as int, k as int, column(old(self).w as int, i)) == dx && arc_offset(
                        y as int,
                        h as int,
                        k as int,
                        line(old(self).w as int, old(self).y0 as int, i),
                    ) == dy {
                        blended(p, color, alpha as int, alpha as int, alpha as int)
                    } else {
                        p
                    }),
            ),
    {
        let ghost prior = self.px@;
        let ghost (bw, by0) = (self.w as int, self.y0 as int);
        proof {
            lemma_grid(bw, by0, self.rows as int);
        }
        let (left, right) = (x + k - 1 - dx, x + w - k + dx);
        let (up, down) = (y + k - 1 - dy, y + h - k + dy);
        self.blend(left, up, color, alpha);
        self.blend(right, up, color, alpha);
        self.blend(left, down, color, alpha);
        self.blend(right, down, color, alpha);
        proof {
            assert forall|i: int| 0 <= i < prior.len() implies #[trigger] self.px@[i] == (if arc_offset(
                x as int,
                w as int,
                k as int,
                column(bw, i),
            ) == dx && arc_offset(y as int, h as int, k as int, line(bw, by0, i)) == dy {
                blended(prior[i], color, alpha as int, alpha as int, alpha as int)
            } else {
                prior[i]
            }) by {
                let (c, l) = (column(bw, i), line(bw, by0, i));
                assert(spot(bw, by0, c, l) == i);
                if arc_offset(x as int, w as int, k as int, c) == dx && arc_offset(y as int, h as int, k as int, l) == dy {
                    assert(c == left || c == right);
                    assert(l == up || l == down);
                } else {
                    assert(i != spot(bw, by0, left as int, up as int) || !old(self).holds(left as int, up as int));
                    assert(i != spot(bw, by0, right as int, up as int) || !old(self).holds(right as int, up as int));
                    assert(i != spot(bw, by0, left as int, down as int) || !old(self).holds(left as int, down as int));
                    assert(i != spot(bw, by0, right as int, down as int) || !old(self).holds(right as int, down as int));
                }
            }
        }
    }

    /// A rectangle with corners of radius `r` (at most half of either side), their edges smoothed
    /// by coverage.
    pub fn fill_round_rect(&mut self, x: i32, y: i32, w: i32, h: i32, r: i32, color: u32)
        requires
            old(self).wf(),
            coordinate(x as int),
            coordinate(y as int),
            coordinate(w as int),
            coordinate(h as int),
            radius(r as int),
        ensures
            final(self).wf(),
            final(self).drawn(
                old(self),
                (|i: int, p: u32|
                    round_rect_pixel(
                        p,
                        column(old(self).w as int, i),
                        line(old(self).w as int, old(self).y0 as int, i),
                        x as int,
                        y as int,
                        w as int,
                        h as int,
                        r as int,
                        color,
                    )),
            ),
    {
        let ghost prior = self.px@;
        let ghost (bw, by0) = (self.w as int, self.y0 as int);
        let ghost asked = r as int;
        let half_w = if w >= 0 { w / 2 } else { -((-w) / 2) };
        let half_h = if h >= 0 { h / 2 } else { -((-h) / 2) };
        let r = if r < half_w { r } else { half_w };
        let r = if r < half_h { r } else { half_h };
        let ghost k = r as int;
        assert(k == corner_radius(asked, w as int, h as int));
        self.fill_rect(x + r, y, w - 2 * r, h, color);
        self.fill_rect(x, y + r, r, h - 2 * r, color);
        self.fill_rect(x + w - r, y + r, r, h - 2 * r, color);
        let ghost mid = self.px@;
        proof {
            lemma_grid(bw, by0, self.rows as int);
            assert forall|i: int| 0 <= i < prior.len() implies #[trigger] mid[i] == (if in_cross(
                column(bw, i),
                line(bw, by0, i),
                x as int,
                y as int,
                w as int,
                h as int,
                k,
            ) {
                color
            } else {
                prior[i]
            }) by {}
        }
        let (top, bottom) = (self.y0, self.y0 + self.rows);
        let mut dy: i32 = 0;
        while dy < r
            invariant
                self.same_band(old(self)),
                old(self).wf(),
                self.wf(),
                bw == self.w,
                by0 == self.y0,
                top == by0,
                bottom == by0 + self.rows,
                prior == old(self).px@,
                self.px@.len() == prior.len(),
                mid.len() == prior.len(),
                coordinate(x as int),
                coordinate(y as int),
                coordinate(w as int),
                coordinate(h as int),
                k == r,
                -0x1000_0000 <= r <= 10000,
                r > 0 ==> 2 * r <= w && 2 * r <= h,
                0 <= dy,
                dy <= r || r <= 0,
                forall|i: int|
                    0 <= i < prior.len() ==> 0 <= #[trigger] column(bw, i) < bw && by0 <= line(bw, by0, i) < by0
                        + self.rows && spot(bw, by0, column(bw, i), line(bw, by0, i)) == i,
                forall|i: int|
                    0 <= i < prior.len() ==> #[trigger] mid[i] == (if in_cross(
                        column(bw, i),
                        line(bw, by0, i),
                        x as int,
                        y as int,
                        w as int,
                        h as int,
                        k,
                    ) {
                        color
                    } else {
                        prior[i]
                    }),
                forall|i: int|
                    0 <= i < prior.len() ==> #[trigger] self.px@[i] == (if arc_offset(
                        x as int,
                        w as int,
                        k,
                        column(bw, i),
                    ) >= 0 && 0 <= arc_offset(y as int, h as int, k, line(bw, by0, i)) < dy {
                        corner_pixel(prior[i], arc_offset(x as int, w as int, k, column(bw, i)), arc_offset(y as int, h as int, k, line(bw, by0, i)), k, color)
                    } else {
                        mid[i]
                    }),
            decreases r - dy,
        {
            let (up, down) = (y + r - 1 - dy, y + h - r + dy);
            if (up >= top && up < bottom) || (down >= top && down < bottom) {
                let mut dx: i32 = 0;
                while dx < r
                    invariant
                        self.same_band(old(self)),
                        old(self).wf(),
                        self.wf(),
                        bw == self.w,
                        by0 == self.y0,
                        self.px@.len() == prior.len(),
                        mid.len() == prior.len(),
                        coordinate(x as int),
                        coordinate(y as int),
                        coordinate(w as int),
                        coordinate(h as int),
                        k == r,
                        0 < r <= 10000,
                        2 * r <= w && 2 * r <= h,
                        0 <= dy < r,
                        0 <= dx <= r,
                        forall|i: int|
                            0 <= i < prior.len() ==> #[trigger] mid[i] == (if in_cross(
                                column(bw, i),
                                line(bw, by0, i),
                                x as int,
                                y as int,
                                w as int,
                                h as int,
                                k,
                            ) {
                                color
                            } else {
                                prior[i]
                            }),
                        forall|i: int|
                            0 <= i < prior.len() ==> #[trigger] self.px@[i] == (if arc_offset(
                                x as int,
                                w as int,
                                k,
                                column(bw, i),
                            ) >= 0 && arc_offset(y as int, h as int, k, line(bw, by0, i)) >= 0 && before(
                                arc_offset(y as int, h as int, k, line(bw, by0, i)),
                                arc_offset(x as int, w as int, k, column(bw, i)),
                                dy as int,
                                dx as int,
                            ) {
                                corner_pixel(prior[i], arc_offset(x as int, w as int, k, column(bw, i)), arc_offset(y as int, h as int, k, line(bw, by0, i)), k, color)
                            } else {
                                mid[i]
                            }),
                    decreases r - dx,
                {
                    let alpha = corner_coverage(dx, dy, r);
                    let ghost was = self.px@;
                    if alpha != 0 {
                        self.blend_corners(x, y, w, h, r, dx, dy, color, alpha);
                    }
                    proof {
                        assert forall|i: int| 0 <= i < prior.len() implies #[trigger] self.px@[i] == (if arc_offset(
                            x as int,
                            w as int,
                            k,
                            column(bw, i),
                        ) >= 0 && arc_offset(y as int, h as int, k, line(bw, by0, i)) >= 0 && before(
                            arc_offset(y as int, h as int, k, line(bw, by0, i)),
                            arc_offset(x as int, w as int, k, column(bw, i)),
                            dy as int,
                            dx + 1,
                        ) {
                            corner_pixel(prior[i], arc_offset(x as int, w as int, k, column(bw, i)), arc_offset(y as int, h as int, k, line(bw, by0, i)), k, color)
                        } else {
                            mid[i]
                        }) by {
                            let (ox, oy) = (arc_offset(x as int, w as int, k, column(bw, i)), arc_offset(y as int, h as int, k, line(bw, by0, i)));
                            assert(was[i] == (if ox >= 0 && oy >= 0 && before(oy, ox, dy as int, dx as int) {
                                corner_pixel(prior[i], ox, oy, k, color)
                            } else {
                                mid[i]
                            }));
                            if ox == dx && oy == dy {
                                assert(!in_cross(column(bw, i), line(bw, by0, i), x as int, y as int, w as int, h as int, k));
                                assert(mid[i] == prior[i]);
                                if alpha != 0 {
                                    assert(self.px@[i] == blended(was[i], color, alpha as int, alpha as int, alpha as int));
                                } else {
                                    assert(self.px@[i] == was[i]);
                                }
                            } else if alpha != 0 {
                                assert(self.px@[i] == was[i]);
                            }
                        }
                    }
                    dx = dx + 1;
                }
            }
            dy = dy + 1;
        }
    }

    /// Paints the rectangle at (`x`, `y`), `w` by `h`, in `color`; what lies outside the band is
    /// skipped, and a rectangle with no width or height paints nothing.
    pub fn fill_rect(&mut self, x: i32, y: i32, w: i32, h: i32, color: u32)
        requires
            old(self).wf(),
            i32::MIN <= x + w <= i32::MAX,
            i32::MIN <= y + h <= i32::MAX,
        ensures
            final(self).wf(),
            final(self).drawn(
                old(self),
                (|i: int, p: u32|
                    if in_rect(
                        column(old(self).w as int, i),
                        line(old(self).w as int, old(self).y0 as int, i),
                        x as int,
                        y as int,
                        w as int,
                        h as int,
                    ) {
                        color
                    } else {
                        p
                    }),
            ),
    {
        let ghost prior = self.px@;
        let ghost (bw, by0) = (self.w as int, self.y0 as int);
        proof {
            lemma_grid(bw, by0, self.rows as int);
        }
        let x0 = if x > 0 { x } else { 0 };
        let x1 = if x + w < self.w { x + w } else { self.w };
        let top = if y > self.y0 { y } else { self.y0 };
        let bottom = if y + h < self.y0 + self.rows { y + h } else { self.y0 + self.rows };
        let mut row = top;
        while row < bottom
            invariant
                self.same_band(old(self)),
                old(self).wf(),
                self.wf(),
                bw == self.w,
                by0 == self.y0,
                prior == old(self).px@,
                self.px@.len() == prior.len(),
                x0 == (if x > 0 { x } else { 0 }),
                x1 == (if x + w < self.w { x + w } else { self.w as int }),
                top == (if y > self.y0 { y } else { self.y0 }),
                bottom == (if y + h < self.y0 + self.rows { y + h } else { self.y0 + self.rows as int }),
                top <= row,
                row <= bottom || row == top,
                forall|i: int|
                    0 <= i < prior.len() ==> 0 <= #[trigger] column(bw, i) < bw && by0
                        <= line(bw, by0, i) < by0 + self.rows && spot(bw, by0, column(bw, i), line(bw, by0, i)) == i,
                forall|cx: int, cy: int|
                    0 <= cx < bw && by0 <= cy < by0 + self.rows ==> 0 <= #[trigger] spot(bw, by0, cx, cy) < prior.len() && column(bw, spot(bw, by0, cx, cy)) == cx && line(bw, by0, spot(bw, by0, cx, cy)) == cy,
                forall|i: int|
                    0 <= i < prior.len() ==> #[trigger] self.px@[i] == (if in_rect(
                        column(bw, i),
                        line(bw, by0, i),
                        x as int,
                        y as int,
                        w as int,
                        h as int,
                    ) && line(bw, by0, i) < row {
                        color
                    } else {
                        prior[i]
                    }),
            decreases bottom - row,
        {
            if x0 < x1 {
                proof {
                    assert(0 <= spot(bw, by0, x1 - 1, row as int) < prior.len());
                    assert(0 <= spot(bw, by0, x0 as int, row as int));
                }
                let base = (row - self.y0) * self.w;
                let mut k = base + x0;
                while k < base + x1
                    invariant
                        self.same_band(old(self)),
                        old(self).wf(),
                        bw == self.w,
                        by0 == self.y0,
                        self.px@.len() == prior.len(),
                        prior.len() == prior.len(),
                        0 <= x0 < x1 <= bw,
                        x <= x0,
                        x1 <= x + w,
                        y <= row < y + h,
                        by0 <= row < by0 + self.rows,
                        base == (row - by0) * bw,
                        base + x0 <= k <= base + x1,
                        base + x1 <= prior.len() <= i32::MAX,
                        forall|i: int|
                            0 <= i < prior.len() ==> 0 <= #[trigger] column(bw, i) < bw && by0
                                <= line(bw, by0, i) < by0 + self.rows && spot(bw, by0, column(bw, i), line(bw, by0, i))
                                == i,
                        forall|cx: int, cy: int|
                            0 <= cx < bw && by0 <= cy < by0 + self.rows ==> 0 <= #[trigger] spot(bw, by0, cx, cy)
                                < prior.len() && column(bw, spot(bw, by0, cx, cy)) == cx && line(
                                bw,
                                by0,
                                spot(bw, by0, cx, cy),
                            ) == cy,
                        forall|i: int|
                            0 <= i < prior.len() ==> #[trigger] self.px@[i] == (if in_rect(
                                column(bw, i),
                                line(bw, by0, i),
                                x as int,
                                y as int,
                                w as int,
                                h as int,
                            ) && (line(bw, by0, i) < row || (line(bw, by0, i) == row && column(bw, i) < k - base)) {
                                color
                            } else {
                                prior[i]
                            }),
                    decreases base + x1 - k,
                {
                    proof {
                        assert(spot(bw, by0, k - base, row as int) == k);
                    }
                    self.px.set(k as usize, color);
                    k = k + 1;
                }
            }
            row = row + 1;
        }
    }
}

} // verus!
