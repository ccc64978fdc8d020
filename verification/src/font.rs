//! Reads the glyph atlas written by tools/bakefont (pt-BR glyphs only; anything else measures and
//! draws as '?') and the emoji atlas written by tools/bakeemoji. Glyphs are looked up in place by
//! binary search; nothing is parsed ahead.
//!
//! A text style is a `u16`: the pixel size, plus `BOLD` or `MEDIUM` for the heavier faces. Only the
//! styles the atlas was baked with exist.
//!
//! Atlas layout (little endian): a byte with the number of styles, a `u16` with the number of
//! characters, the styles (`u16` each), the code points (`u16` each, ascending), three `u32` offsets
//! of the kerning tables (regular, medium, bold) and a `u32` offset of the glyph tables. A kerning
//! table is a `u16` count and pairs of (`u16` key big endian, `i16` adjustment in font units). A glyph
//! table entry is ten bytes: `u16` advance in 1/64 px, left and top bearings, width, height, `u32`
//! offset of the packed coverage. The emoji atlas is a `u16` count and the keys (`u32` each, ascending).

use vstd::prelude::*;
use crate::bake::{tokens_end, expand, restore};
use crate::canvas::{Canvas, blended, column, line, spot, before, coordinate, lemma_grid};
use crate::text::{chars_of, string_of, slice_chars, is_whitespace, whitespace, leading_white, trim_start, trim_start_chars};

verus! {

/// Weight 600, for names and titles.
pub const BOLD: u16 = 0x100;
/// Weight 545, for the filter chips.
pub const MEDIUM: u16 = 0x200;
pub const ENTRY_BYTES: u64 = 10;
/// Advances are stored in 1/64 px so that the pen keeps the fraction from letter to letter.
pub const SUBPIXELS: i32 = 64;
pub const EMOJI_SIZE: usize = 18;
pub const EMOJI_PALETTE_BYTES: usize = 48;
pub const EMOJI_ENTRY_BYTES: usize = 372;
/// Room an emoji takes in a line of text: the bitmap plus a little air.
pub const EMOJI_ADVANCE: i32 = 21;
/// How far the bitmap's top edge sits above the baseline.
pub const EMOJI_RISE: i32 = 15;
/// Below this no emoji exists, so the lookup is skipped for ordinary text.
pub const FIRST_EMOJI: u32 = 0x2190;
/// The flag of Brazil is two regional indicators; the atlas keeps it under this key.
pub const BRAZIL_FLAG: u32 = 0x1F_FFFF;
/// The longest text measured at once: a few thousand characters keep every width within an `i32`.
pub const MEASURE_MAX: usize = 4096;

/// `char::from_u32`: the character with that code point, if it is one (not a surrogate, at most 0x10FFFF).
pub assume_specification[ char::from_u32 ](i: u32) -> (c: Option<char>)
    ensures
        c is Some <==> (i < 0xD800 || (0xE000 <= i && i <= 0x10FFFF)),
        c matches Some(ch) ==> ch as u32 == i,
;

// ---- reading the tables

proof fn lemma_u16_bound(s: Seq<u8>, at: int)
    ensures
        0 <= u16_at(s, at) < 65536,
        0 <= u32_at(s, at) < 0x1_0000_0000,
        0 <= byte_at(s, at) < 256,
{
}

/// A byte of `s`, 0 past its end.
pub open spec fn byte_at(s: Seq<u8>, at: int) -> int {
    if 0 <= at < s.len() { s[at] as int } else { 0 }
}

pub open spec fn u16_at(s: Seq<u8>, at: int) -> int {
    byte_at(s, at) + 256 * byte_at(s, at + 1)
}

pub open spec fn u32_at(s: Seq<u8>, at: int) -> int {
    u16_at(s, at) + 65536 * u16_at(s, at + 2)
}

fn read_byte(s: &[u8], at: u64) -> (b: u64)
    ensures
        b == byte_at(s@, at as int),
        b < 256,
{
    if at < s.len() as u64 { s[at as usize] as u64 } else { 0 }
}

fn read_u16(s: &[u8], at: u64) -> (v: u64)
    requires
        at < u64::MAX,
    ensures
        v == u16_at(s@, at as int),
        v < 65536,
{
    read_byte(s, at) + 256 * read_byte(s, at + 1)
}

fn read_u32(s: &[u8], at: u64) -> (v: u64)
    requires
        at < u64::MAX - 3,
    ensures
        v == u32_at(s@, at as int),
        v < 0x1_0000_0000,
{
    read_u16(s, at) + 65536 * read_u16(s, at + 2)
}

pub open spec fn variant_count(a: Seq<u8>) -> int {
    byte_at(a, 0)
}

pub open spec fn char_count(a: Seq<u8>) -> int {
    u16_at(a, 1)
}

pub open spec fn code_at(a: Seq<u8>, i: int) -> int {
    u16_at(a, 3 + 2 * variant_count(a) + 2 * i)
}

pub open spec fn style_at(a: Seq<u8>, v: int) -> int {
    u16_at(a, 3 + 2 * v)
}

/// The atlas' slot for code point `code`, if it has one.
pub open spec fn char_slot(a: Seq<u8>, code: int) -> Option<int> {
    if exists|i: int| 0 <= i < char_count(a) && code_at(a, i) == code {
        Some(choose|i: int| 0 <= i < char_count(a) && code_at(a, i) == code)
    } else {
        None
    }
}

/// The first of the atlas' styles that is `style`, if any.
pub open spec fn style_slot(a: Seq<u8>, style: u16) -> Option<int> {
    if exists|v: int| 0 <= v < variant_count(a) && style_at(a, v) == style {
        Some(choose|v: int| 0 <= v < variant_count(a) && style_at(a, v) == style
            && forall|w: int| 0 <= w < v ==> style_at(a, w) != style)
    } else {
        None
    }
}

/// The slot of the glyph that shows `c`: its own, else the one of '?'.
pub open spec fn glyph_slot(a: Seq<u8>, c: char) -> int {
    match char_slot(a, c as int) {
        Some(i) => i,
        None => char_slot(a, '?' as int)->0,
    }
}

pub open spec fn tables_at(a: Seq<u8>) -> int {
    u32_at(a, 3 + 2 * variant_count(a) + 2 * char_count(a) + 12)
}

/// Where the table entry of glyph slot `index` in style `style` starts.
pub open spec fn entry_at(a: Seq<u8>, style: u16, index: int) -> int {
    tables_at(a) + (style_slot(a, style)->0 * char_count(a) + index) * 10
}

/// The advance of `c` in `style`, in 1/64 px.
pub open spec fn advance(a: Seq<u8>, style: u16, c: char) -> int {
    u16_at(a, entry_at(a, style, glyph_slot(a, c)))
}

/// Which kerning table a style uses: regular, medium or bold.
pub open spec fn face(style: u16) -> int {
    if style & MEDIUM != 0 { 1 } else if style & BOLD != 0 { 2 } else { 0 }
}

pub open spec fn kern_table(a: Seq<u8>, face: int) -> int {
    u32_at(a, 3 + 2 * variant_count(a) + 2 * char_count(a) + 4 * face)
}

pub open spec fn kern_count(a: Seq<u8>, face: int) -> int {
    u16_at(a, kern_table(a, face))
}

/// The key of kerning pair `k`: the left glyph's slot in the high byte, the right one's in the low.
pub open spec fn kern_key(a: Seq<u8>, face: int, k: int) -> int {
    byte_at(a, kern_table(a, face) + 2 + 4 * k) * 256 + byte_at(a, kern_table(a, face) + 3 + 4 * k)
}

/// The adjustment of kerning pair `k`, in font units (2048 per em).
pub open spec fn kern_units(a: Seq<u8>, face: int, k: int) -> int {
    let u = u16_at(a, kern_table(a, face) + 4 + 4 * k);
    if u >= 32768 { u - 65536 } else { u }
}

/// Division that rounds toward zero, as Rust's `/` does.
pub open spec fn div_toward_zero(a: int, b: int) -> int {
    if a >= 0 { a / b } else { -((-a) / b) }
}

/// The key a pair of glyph slots is looked up by.
pub open spec fn pair_key(left: int, right: int) -> int {
    ((left as usize) << 8usize | right as usize) as int
}

/// Kerning between two glyphs (by atlas slot) in 1/64 px, 0 when the pair is not in the table.
pub open spec fn kerning(a: Seq<u8>, style: u16, left: int, right: int) -> int {
    let f = face(style);
    let key = pair_key(left, right);
    if exists|k: int| 0 <= k < kern_count(a, f) && kern_key(a, f, k) == key {
        let k = choose|k: int| 0 <= k < kern_count(a, f) && kern_key(a, f, k) == key;
        div_toward_zero(kern_units(a, f, k) * (style & 0xff) as int * 64, 2048)
    } else {
        0
    }
}

pub open spec fn emoji_count(e: Seq<u8>) -> int {
    u16_at(e, 0)
}

pub open spec fn emoji_key(e: Seq<u8>, i: int) -> int {
    u32_at(e, 2 + 4 * i)
}

/// The emoji atlas' number for `key`, if it has it.
pub open spec fn emoji_slot(e: Seq<u8>, key: int) -> Option<int> {
    if exists|i: int| 0 <= i < emoji_count(e) && emoji_key(e, i) == key {
        Some(choose|i: int| 0 <= i < emoji_count(e) && emoji_key(e, i) == key)
    } else {
        None
    }
}

/// What the searches rely on: ascending code points and keys, and a glyph for '?'.
pub open spec fn atlas_wf(a: Seq<u8>, e: Seq<u8>) -> bool {
    &&& forall|i: int, j: int| 0 <= i < j < char_count(a) ==> code_at(a, i) < code_at(a, j)
    &&& forall|f: int, i: int, j: int| 0 <= f < 3 && 0 <= i < j < kern_count(a, f) ==> kern_key(a, f, i) < kern_key(a, f, j)
    &&& forall|i: int, j: int| 0 <= i < j < emoji_count(e) ==> emoji_key(e, i) < emoji_key(e, j)
    &&& char_slot(a, '?' as int) is Some
    &&& forall|v: int, i: int| 0 <= v < variant_count(a) && 0 <= i < char_count(a) ==> #[trigger] glyph_drawable(a, v, i)
    &&& emoji_at(e, emoji_count(e)) <= e.len()
}

/// Room for the largest glyph's coverage bytes (three per pixel) while it is drawn.
pub const UNPACKED_MAX: usize = 1536;

/// Where the table entry of glyph slot `i` of style slot `v` starts.
pub open spec fn glyph_at(a: Seq<u8>, v: int, i: int) -> int {
    tables_at(a) + (v * char_count(a) + i) * 10
}

/// The glyph's entry lies in the atlas, its bitmap fits the drawing buffer, and its token stream
/// stands for exactly its coverage bytes.
pub open spec fn glyph_drawable(a: Seq<u8>, v: int, i: int) -> bool {
    let at = glyph_at(a, v, i);
    let (w, h, off) = (byte_at(a, at + 4), byte_at(a, at + 5), u32_at(a, at + 6));
    &&& at + 10 <= a.len()
    &&& w * h * 3 <= UNPACKED_MAX
    &&& off <= a.len()
    &&& stream_fits(a, off, w * h * 3)
}

/// Whether the tokens of `a` from `off` on stand for exactly `n` bytes.
pub open spec fn stream_fits(a: Seq<u8>, off: int, n: int) -> bool {
    exists|end: int| tokens_end(a.subrange(off, a.len() as int), 0, n, end)
}

/// Where the bitmap of emoji `index` starts: after the count and the keys.
pub open spec fn emoji_at(e: Seq<u8>, index: int) -> int {
    2 + 4 * emoji_count(e) + index * EMOJI_ENTRY_BYTES
}

/// Whether every glyph of the atlas can be drawn.
fn glyphs_check(a: &[u8]) -> (ok: bool)
    ensures
        ok == (forall|v: int, i: int| 0 <= v < variant_count(a@) && 0 <= i < char_count(a@) ==> #[trigger] glyph_drawable(a@, v, i)),
{
    let variants = read_byte(a, 0);
    let count = read_u16(a, 1);
    let tables = read_u32(a, 3 + 2 * variants + 2 * count + 12);
    let mut v: u64 = 0;
    while v < variants
        invariant
            0 <= v <= variants,
            variants == variant_count(a@),
            variants < 256,
            count == char_count(a@),
            count < 65536,
            tables == tables_at(a@),
            tables < 0x1_0000_0000,
            forall|x: int, y: int| 0 <= x < v && 0 <= y < count ==> #[trigger] glyph_drawable(a@, x, y),
        decreases variants - v,
    {
        let mut i: u64 = 0;
        while i < count
            invariant
                0 <= v < variants,
                0 <= i <= count,
                variants == variant_count(a@),
                variants < 256,
                count == char_count(a@),
                count < 65536,
                tables == tables_at(a@),
                tables < 0x1_0000_0000,
                forall|x: int, y: int| 0 <= x < v && 0 <= y < count ==> #[trigger] glyph_drawable(a@, x, y),
                forall|y: int| 0 <= y < i ==> #[trigger] glyph_drawable(a@, v as int, y),
            decreases count - i,
        {
            assert((v * count + i) * 10 < 256 * 65536 * 10) by (nonlinear_arith)
                requires
                    v < 256,
                    i < count,
                    count < 65536,
            ;
            let at = tables + (v * count + i) * 10;
            assert(at == glyph_at(a@, v as int, i as int));
            let w = read_byte(a, at + 4);
            let h = read_byte(a, at + 5);
            let off = read_u32(a, at + 6);
            assert(w * h * 3 < 256 * 256 * 3) by (nonlinear_arith)
                requires
                    w < 256,
                    h < 256,
            ;
            if at + 10 > a.len() as u64 || w * h * 3 > UNPACKED_MAX as u64 || off > a.len() as u64 {
                assert(!glyph_drawable(a@, v as int, i as int));
                return false;
            }
            if !crate::bake::tokens_fit(a, off as usize, (w * h * 3) as usize) {
                assert(!glyph_drawable(a@, v as int, i as int));
                return false;
            }
            assert(glyph_drawable(a@, v as int, i as int));
            i = i + 1;
        }
        v = v + 1;
    }
    true
}

/// The two atlases, as baked.
pub struct Font {
    pub atlas: Vec<u8>,
    pub emoji: Vec<u8>,
}

impl Font {
    pub closed spec fn wf(&self) -> bool {
        atlas_wf(self.atlas@, self.emoji@)
    }

    pub closed spec fn has_style(&self, style: u16) -> bool {
        style_slot(self.atlas@, style) is Some
    }

    /// Whether the atlas was baked with `style`.
    pub fn offers(&self, style: u16) -> (found: bool)
        ensures
            found == self.has_style(style),
    {
        find_style(self.atlas.as_slice(), style).is_some()
    }

    /// The two atlases, when their tables are in order; `None` when they are not.
    pub fn new(atlas: Vec<u8>, emoji: Vec<u8>) -> (font: Option<Font>)
        ensures
            match font {
                Some(f) => f.wf() && atlas_wf(atlas@, emoji@) && f.atlas@ == atlas@ && f.emoji@ == emoji@,
                None => !atlas_wf(atlas@, emoji@),
            },
    {
        let a = atlas.as_slice();
        let count = read_u16(a, 1);
        let codes_at: u64 = 3 + 2 * read_byte(a, 0);
        let mut i: u64 = 1;
        while i < count
            invariant
                1 <= i <= count || count == 0,
                count == char_count(a@),
                count < 65536,
                a@ == atlas@,
                codes_at == 3 + 2 * variant_count(a@),
                codes_at <= 513,
                forall|x: int, y: int| 0 <= x < y < i && y < count ==> code_at(a@, x) < code_at(a@, y),
            decreases count - i,
        {
            if read_u16(a, codes_at + 2 * (i - 1)) >= read_u16(a, codes_at + 2 * i) {
                assert(!(code_at(a@, i - 1) < code_at(a@, i as int)));
                assert(!atlas_wf(atlas@, emoji@));
                return None;
            }
            proof {
                assert forall|x: int, y: int| 0 <= x < y < i + 1 && y < count implies code_at(a@, x) < code_at(a@, y) by {
                    if y == i && x < i - 1 {
                        assert(code_at(a@, x) < code_at(a@, i - 1));
                    }
                }
            }
            i = i + 1;
        }
        let mut f: u64 = 0;
        while f < 3
            invariant
                0 <= f <= 3,
                a@ == atlas@,
                count == char_count(a@),
                count < 65536,
                codes_at == 3 + 2 * variant_count(a@),
                codes_at <= 513,
                forall|g: int, x: int, y: int| 0 <= g < f && 0 <= x < y < kern_count(a@, g) ==> kern_key(a@, g, x) < kern_key(a@, g, y),
            decreases 3 - f,
        {
            let table = read_u32(a, codes_at + 2 * count + 4 * f);
            let pairs = read_u16(a, table);
            let mut k: u64 = 1;
            while k < pairs
                invariant
                    1 <= k <= pairs || pairs == 0,
                    0 <= f < 3,
                    a@ == atlas@,
                    table == kern_table(a@, f as int),
                    table < 0x1_0000_0000,
                    pairs == kern_count(a@, f as int),
                    pairs < 65536,
                    forall|x: int, y: int| 0 <= x < y < k && y < pairs ==> kern_key(a@, f as int, x) < kern_key(a@, f as int, y),
                decreases pairs - k,
            {
                let before = read_byte(a, table + 2 + 4 * (k - 1)) * 256 + read_byte(a, table + 3 + 4 * (k - 1));
                let here = read_byte(a, table + 2 + 4 * k) * 256 + read_byte(a, table + 3 + 4 * k);
                if before >= here {
                    assert(!(kern_key(a@, f as int, k - 1) < kern_key(a@, f as int, k as int)));
                    assert(!atlas_wf(atlas@, emoji@));
                    return None;
                }
                proof {
                    assert forall|x: int, y: int| 0 <= x < y < k + 1 && y < pairs implies kern_key(a@, f as int, x) < kern_key(a@, f as int, y) by {
                        if y == k && x < k - 1 {
                            assert(kern_key(a@, f as int, x) < kern_key(a@, f as int, k - 1));
                        }
                    }
                }
                k = k + 1;
            }
            f = f + 1;
        }
        let e = emoji.as_slice();
        let total = read_u16(e, 0);
        let mut j: u64 = 1;
        while j < total
            invariant
                1 <= j <= total || total == 0,
                total == emoji_count(e@),
                total < 65536,
                e@ == emoji@,
                forall|x: int, y: int| 0 <= x < y < j && y < total ==> emoji_key(e@, x) < emoji_key(e@, y),
            decreases total - j,
        {
            if read_u32(e, 2 + 4 * (j - 1)) >= read_u32(e, 2 + 4 * j) {
                assert(!(emoji_key(e@, j - 1) < emoji_key(e@, j as int)));
                assert(!atlas_wf(atlas@, emoji@));
                return None;
            }
            proof {
                assert forall|x: int, y: int| 0 <= x < y < j + 1 && y < total implies emoji_key(e@, x) < emoji_key(e@, y) by {
                    if y == j && x < j - 1 {
                        assert(emoji_key(e@, x) < emoji_key(e@, j - 1));
                    }
                }
            }
            j = j + 1;
        }
        if find_char(a, count, '?' as u64).is_none() {
            return None;
        }
        if !glyphs_check(a) {
            return None;
        }
        if 2 + 4 * total + total * EMOJI_ENTRY_BYTES as u64 > e.len() as u64 {
            return None;
        }
        let font = Font { atlas, emoji };
        assert(font.wf());
        Some(font)
    }
}

/// Binary search of the code points for `code`.
fn find_char(a: &[u8], count: u64, code: u64) -> (slot: Option<u64>)
    requires
        count == char_count(a@),
        forall|i: int, j: int| 0 <= i < j < char_count(a@) ==> code_at(a@, i) < code_at(a@, j),
    ensures
        match slot {
            Some(i) => char_slot(a@, code as int) == Some(i as int),
            None => char_slot(a@, code as int) is None,
        },
{
    proof { lemma_u16_bound(a@, 1); }
    let codes_at: u64 = 3 + 2 * read_byte(a, 0);
    let mut low: u64 = 0;
    let mut high: u64 = count;
    while low < high
        invariant
            0 <= low <= high <= count,
            count == char_count(a@),
            count < 65536,
            codes_at == 3 + 2 * variant_count(a@),
            codes_at <= 513,
            forall|i: int, j: int| 0 <= i < j < char_count(a@) ==> code_at(a@, i) < code_at(a@, j),
            forall|i: int| 0 <= i < low ==> code_at(a@, i) < code,
            forall|i: int| high <= i < count ==> code_at(a@, i) > code,
        decreases high - low,
    {
        let mid = low + (high - low) / 2;
        let here = read_u16(a, codes_at + 2 * mid);
        if here == code {
            assert(code_at(a@, mid as int) == code);
            let ghost chosen = choose|i: int| 0 <= i < char_count(a@) && code_at(a@, i) == code;
            assert(chosen == mid) by {
                if chosen < mid { assert(code_at(a@, chosen) < code_at(a@, mid as int)); }
                if chosen > mid { assert(code_at(a@, mid as int) < code_at(a@, chosen)); }
            }
            return Some(mid);
        } else if here < code {
            assert forall|i: int| 0 <= i < mid + 1 implies code_at(a@, i) < code by {
                if i < mid { assert(code_at(a@, i) < code_at(a@, mid as int)); }
            }
            low = mid + 1;
        } else {
            assert forall|i: int| mid <= i < count implies code_at(a@, i) > code by {
                if i > mid { assert(code_at(a@, mid as int) < code_at(a@, i)); }
            }
            high = mid;
        }
    }
    None
}

/// The first of the atlas' styles that is `style`.
#[verifier::spinoff_prover]
fn find_style(a: &[u8], style: u16) -> (slot: Option<u64>)
    ensures
        slot matches Some(v) ==> v < 256 && v < variant_count(a@),
        match slot {
            Some(v) => style_slot(a@, style) == Some(v as int),
            None => style_slot(a@, style) is None,
        },
{
    let count = read_byte(a, 0);
    let mut v: u64 = 0;
    while v < count
        invariant
            0 <= v <= count,
            count == variant_count(a@),
            count < 256,
            forall|w: int| 0 <= w < v ==> style_at(a@, w) != style,
        decreases count - v,
    {
        if read_u16(a, 3 + 2 * v) == style as u64 {
            assert(0 <= v < variant_count(a@) && style_at(a@, v as int) == style
                && forall|w: int| 0 <= w < v ==> style_at(a@, w) != style);
            let ghost chosen = choose|x: int| 0 <= x < variant_count(a@) && style_at(a@, x) == style
                && forall|w: int| 0 <= w < x ==> style_at(a@, w) != style;
            assert(chosen == v) by {
                if chosen < v { assert(style_at(a@, chosen) != style); }
                if chosen > v { assert(style_at(a@, v as int) != style); }
            }
            return Some(v);
        }
        v = v + 1;
    }
    None
}

/// The glyph slot that shows `c`.
fn glyph_of(font: &Font, c: char) -> (slot: u64)
    requires
        font.wf(),
    ensures
        slot == glyph_slot(font.atlas@, c),
        slot < char_count(font.atlas@),
{
    let a = font.atlas.as_slice();
    let count = read_u16(a, 1);
    match find_char(a, count, c as u64) {
        Some(i) => i,
        None => {
            let fallback = find_char(a, count, '?' as u64);
            fallback.unwrap()
        }
    }
}

/// The advance of glyph slot `index` in style slot `variant`, in 1/64 px.
fn advance_of(a: &[u8], variant: u64, index: u64) -> (adv: u64)
    requires
        variant < 256,
        index < 65536,
    ensures
        adv == u16_at(a@, tables_at(a@) + (variant * char_count(a@) + index) * 10),
        adv < 65536,
{
    let count = read_u16(a, 1);
    let tables = read_u32(a, 3 + 2 * read_byte(a, 0) + 2 * count + 12);
    assert(variant * count <= 255 * 65535) by (nonlinear_arith)
        requires variant < 256, count < 65536;
    read_u16(a, tables + (variant * count + index) * 10)
}

/// Kerning between two glyphs (by atlas slot) in 1/64 px.
fn kerning_of(font: &Font, style: u16, left: u64, right: u64) -> (k: i64)
    requires
        font.wf(),
        left < 65536,
        right < 65536,
    ensures
        k == kerning(font.atlas@, style, left as int, right as int),
        -261120 <= k <= 261120,
{
    let a = font.atlas.as_slice();
    let f: u64 = if style & MEDIUM != 0 { 1 } else if style & BOLD != 0 { 2 } else { 0 };
    assert(f == face(style));
    let codes_at: u64 = 3 + 2 * read_byte(a, 0);
    let count = read_u16(a, 1);
    let table = read_u32(a, codes_at + 2 * count + 4 * f);
    let key: u64 = ((left as usize) << 8usize | right as usize) as u64;
    assert(key == pair_key(left as int, right as int));
    let mut low: u64 = 0;
    let mut high: u64 = read_u16(a, table);
    while low < high
        invariant
            0 <= low <= high <= kern_count(a@, f as int),
            a@ == font.atlas@,
            font.wf(),
            0 <= f < 3,
            f == face(style),
            table == kern_table(a@, f as int),
            table < 0x1_0000_0000,
            kern_count(a@, f as int) < 65536,
            key == pair_key(left as int, right as int),
            forall|i: int| 0 <= i < low ==> kern_key(a@, f as int, i) < key,
            forall|i: int| high <= i < kern_count(a@, f as int) ==> kern_key(a@, f as int, i) > key,
        decreases high - low,
    {
        let mid = low + (high - low) / 2;
        let at = table + 2 + mid * 4;
        let found = read_byte(a, at) * 256 + read_byte(a, at + 1);
        assert(found == kern_key(a@, f as int, mid as int));
        if found == key {
            let ghost ff = face(style);
            let ghost kk = pair_key(left as int, right as int);
            let ghost chosen = choose|k: int| 0 <= k < kern_count(font.atlas@, ff) && kern_key(font.atlas@, ff, k) == kk;
            assert(kern_key(font.atlas@, ff, mid as int) == kk);
            assert(chosen == mid) by {
                if chosen < mid { assert(kern_key(a@, f as int, chosen) < kern_key(a@, f as int, mid as int)); }
                if chosen > mid { assert(kern_key(a@, f as int, mid as int) < kern_key(a@, f as int, chosen)); }
            }
            let raw = read_u16(a, at + 2);
            let units: i64 = if raw >= 32768 { raw as i64 - 65536 } else { raw as i64 };
            let size: i64 = (style & 0xff) as i64;
            assert(0 <= size <= 255) by (bit_vector)
                requires size == (style & 0xff) as i64;
            assert(-32768 * 255 <= units * size <= 32767 * 255) by (nonlinear_arith)
                requires -32768 <= units <= 32767, 0 <= size <= 255;
            let scaled: i64 = units * size;
            let product: i64 = scaled * 64;
            assert(-32768 * 255 * 64 <= product <= 32767 * 255 * 64);
            let k: i64 = if product >= 0 { product / 2048 } else { -((-product) / 2048) };
            assert(-261120 <= k <= 261120) by (nonlinear_arith)
                requires
                    -32768 * 255 * 64 <= product <= 32767 * 255 * 64,
                    k == (if product >= 0 { product / 2048 } else { -((-product) / 2048) });
            assert(units == kern_units(a@, f as int, mid as int));
            assert(size == (style & 0xff) as int);
            assert(k == div_toward_zero(kern_units(a@, f as int, mid as int) * (style & 0xff) as int * 64, 2048));
            return k;
        } else if found < key {
            assert forall|i: int| 0 <= i < mid + 1 implies kern_key(a@, f as int, i) < key by {
                if i < mid { assert(kern_key(a@, f as int, i) < kern_key(a@, f as int, mid as int)); }
            }
            low = mid + 1;
        } else {
            assert forall|i: int| mid <= i < kern_count(a@, f as int) implies kern_key(a@, f as int, i) > key by {
                if i > mid { assert(kern_key(a@, f as int, mid as int) < kern_key(a@, f as int, i)); }
            }
            high = mid;
        }
    }
    assert(!exists|k: int| 0 <= k < kern_count(a@, f as int) && kern_key(a@, f as int, k) == key);
    0
}

/// Binary search of the emoji keys.
fn find_emoji(e: &[u8], key: u64) -> (slot: Option<u64>)
    requires
        forall|i: int, j: int| 0 <= i < j < emoji_count(e@) ==> emoji_key(e@, i) < emoji_key(e@, j),
    ensures
        match slot {
            Some(i) => emoji_slot(e@, key as int) == Some(i as int),
            None => emoji_slot(e@, key as int) is None,
        },
{
    let mut low: u64 = 0;
    let mut high: u64 = read_u16(e, 0);
    while low < high
        invariant
            0 <= low <= high <= emoji_count(e@),
            emoji_count(e@) < 65536,
            forall|i: int, j: int| 0 <= i < j < emoji_count(e@) ==> emoji_key(e@, i) < emoji_key(e@, j),
            forall|i: int| 0 <= i < low ==> emoji_key(e@, i) < key,
            forall|i: int| high <= i < emoji_count(e@) ==> emoji_key(e@, i) > key,
        decreases high - low,
    {
        let mid = low + (high - low) / 2;
        let here = read_u32(e, 2 + 4 * mid);
        if here == key {
            let ghost chosen = choose|i: int| 0 <= i < emoji_count(e@) && emoji_key(e@, i) == key;
            assert(chosen == mid) by {
                if chosen < mid { assert(emoji_key(e@, chosen) < emoji_key(e@, mid as int)); }
                if chosen > mid { assert(emoji_key(e@, mid as int) < emoji_key(e@, chosen)); }
            }
            return Some(mid);
        } else if here < key {
            assert forall|i: int| 0 <= i < mid + 1 implies emoji_key(e@, i) < key by {
                if i < mid { assert(emoji_key(e@, i) < emoji_key(e@, mid as int)); }
            }
            low = mid + 1;
        } else {
            assert forall|i: int| mid <= i < emoji_count(e@) implies emoji_key(e@, i) > key by {
                if i > mid { assert(emoji_key(e@, mid as int) < emoji_key(e@, i)); }
            }
            high = mid;
        }
    }
    None
}

/// The atlas number of the emoji `c`, if it has one.
pub fn emoji_index(font: &Font, c: char) -> (index: Option<usize>)
    requires
        font.wf(),
    ensures
        match index {
            Some(i) => emoji_slot(font.emoji@, c as int) == Some(i as int),
            None => emoji_slot(font.emoji@, c as int) is None,
        },
{
    match find_emoji(font.emoji.as_slice(), c as u64) {
        Some(i) => Some(i as usize),
        None => None,
    }
}

/// How many emoji the atlas has, for the picker.
pub fn emoji_total(font: &Font) -> (total: usize)
    ensures
        total == emoji_count(font.emoji@),
{
    read_u16(font.emoji.as_slice(), 0) as usize
}

/// Whether `code` is a Unicode scalar value: not a surrogate, at most 0x10FFFF.
pub open spec fn is_scalar(code: int) -> bool {
    0 <= code < 0xD800 || 0xE000 <= code <= 0x10FFFF
}

/// The characters that make up emoji number `index`: one, or two for the flag of Brazil.
pub fn emoji_chars(font: &Font, index: usize) -> (chars: (char, Option<char>))
    requires
        index < 0x1000_0000,
    ensures
        ({
            let key = emoji_key(font.emoji@, index as int);
            &&& key == BRAZIL_FLAG ==> chars == ('\u{1F1E7}', Some('\u{1F1F7}'))
            &&& key != BRAZIL_FLAG && is_scalar(key) ==> chars.0 as u32 == key && chars.1 is None
            &&& key != BRAZIL_FLAG && !is_scalar(key) ==> chars == ('?', None::<char>)
        }),
{
    let key = read_u32(font.emoji.as_slice(), 2 + 4 * index as u64);
    if key == BRAZIL_FLAG as u64 {
        return ('\u{1F1E7}', Some('\u{1F1F7}'));
    }
    let code: u32 = key as u32;
    assert(code == key);
    match char::from_u32(code) {
        Some(c) => {
            assert(c as u32 == code);
            (c, None)
        }
        None => ('?', None),
    }
}

// ---- measuring

/// What a character of the text becomes: a glyph, an emoji of the atlas, or nothing.
#[derive(Clone, Copy, PartialEq, Eq, Structural, Debug)]
pub enum Piece {
    Glyph(char),
    Emoji(usize),
    /// Variation selector, joiner or skin tone: no room of its own.
    Skip,
}

pub open spec fn is_skip(c: char) -> bool {
    c as u32 == 0xFE0F || c as u32 == 0x200D || (0x1F3FB <= c as u32 && c as u32 <= 0x1F3FF)
}

/// Whether `s` starts with the two regional indicators of the flag of Brazil.
pub open spec fn starts_with_flag(s: Seq<char>) -> bool {
    s.len() > 1 && s[0] as u32 == 0x1F1E7 && s[1] as u32 == 0x1F1F7
}

/// How many characters the first piece of `s` takes.
pub open spec fn piece_len(s: Seq<char>) -> int {
    if starts_with_flag(s) { 2 } else { 1 }
}

/// The first piece of `s` (which is not empty).
pub open spec fn first_piece(e: Seq<u8>, s: Seq<char>) -> Piece {
    let c = s[0];
    if is_skip(c) {
        Piece::Skip
    } else if starts_with_flag(s) {
        match emoji_slot(e, BRAZIL_FLAG as int) {
            Some(i) => Piece::Emoji(i as usize),
            None => Piece::Glyph('?'),
        }
    } else if c as u32 >= FIRST_EMOJI {
        match emoji_slot(e, c as int) {
            Some(i) => Piece::Emoji(i as usize),
            None => Piece::Glyph(c),
        }
    } else {
        Piece::Glyph(c)
    }
}

/// Width of `s` in 1/64 px, kerning included, after a glyph of slot `previous` (or none).
pub open spec fn width_from(a: Seq<u8>, e: Seq<u8>, style: u16, s: Seq<char>, previous: Option<int>) -> int
    decreases s.len(),
{
    if s.len() == 0 {
        0
    } else {
        let rest = s.skip(piece_len(s));
        match first_piece(e, s) {
            Piece::Glyph(c) => {
                let g = glyph_slot(a, c);
                let kern = match previous {
                    Some(left) => kerning(a, style, left, g),
                    None => 0,
                };
                advance(a, style, c) + kern + width_from(a, e, style, rest, Some(g))
            },
            Piece::Emoji(_) => EMOJI_ADVANCE * SUBPIXELS + width_from(a, e, style, rest, None),
            Piece::Skip => width_from(a, e, style, rest, previous),
        }
    }
}

/// Width of `text` in 1/64 px.
pub closed spec fn text_width(font: &Font, text: Seq<char>, style: u16) -> int {
    width_from(font.atlas@, font.emoji@, style, text, None)
}

/// Width of `text` in whole pixels, rounded up.
pub closed spec fn text_pixels(font: &Font, text: Seq<char>, style: u16) -> int {
    div_toward_zero(text_width(font, text, style) + SUBPIXELS - 1, SUBPIXELS as int)
}

/// The most one piece can add to a width, either way.
pub const PIECE_MAX: i64 = 326655;

fn is_skip_code(code: u32) -> (skip: bool)
    ensures
        skip == (code == 0xFE0F || code == 0x200D || (0x1F3FB <= code && code <= 0x1F3FF)),
{
    code == 0xFE0F || code == 0x200D || (0x1F3FB <= code && code <= 0x1F3FF)
}

/// Width of the characters `chars` in 1/64 px, kerning included.
#[verifier::spinoff_prover]
#[verifier::rlimit(40)]
pub fn measure_chars(font: &Font, chars: &[char], style: u16) -> (width: i32)
    requires
        font.wf(),
        font.has_style(style),
        chars@.len() <= MEASURE_MAX,
    ensures
        width == text_width(font, chars@, style),
        -0x5000_0000 <= width <= 0x5000_0000,
        -(chars@.len() as int) * PIECE_MAX <= width <= (chars@.len() as int) * PIECE_MAX,
{
    let a = font.atlas.as_slice();
    let e = font.emoji.as_slice();
    let variant = find_style(a, style).unwrap();
    proof { lemma_u16_bound(a@, 0); }
    let ghost all = width_from(a@, e@, style, chars@, None);
    let mut sub: i64 = 0;
    let mut previous: Option<u64> = None;
    let mut i: usize = 0;
    assert(chars@.skip(0) =~= chars@);
    while i < chars.len()
        invariant
            0 <= i <= chars@.len(),
            chars@.len() <= MEASURE_MAX,
            a@ == font.atlas@,
            e@ == font.emoji@,
            font.wf(),
            style_slot(a@, style) == Some(variant as int),
            variant < 256,
            all == width_from(a@, e@, style, chars@, None),
            sub + width_from(a@, e@, style, chars@.skip(i as int), match previous { Some(p) => Some(p as int), None => None }) == all,
            -(i as int) * PIECE_MAX <= sub <= (i as int) * PIECE_MAX,
            match previous { Some(p) => p < char_count(a@), None => true },
        decreases chars@.len() - i,
    {
        let ghost rest = chars@.skip(i as int);
        let ghost prev_spec = match previous { Some(p) => Some(p as int), None => None::<int> };
        let c = chars[i];
        let code = c as u32;
        assert(rest[0] == c);
        let flag = code == 0x1F1E7 && i + 1 < chars.len() && chars[i + 1] as u32 == 0x1F1F7;
        assert(flag == starts_with_flag(rest));
        let step: usize = if flag { 2 } else { 1 };
        assert(rest.skip(piece_len(rest)) =~= chars@.skip(i + step));
        if is_skip_code(code) {
            assert(first_piece(e@, rest) == Piece::Skip);
        } else {
            let emoji = if flag {
                find_emoji(e, BRAZIL_FLAG as u64)
            } else if code >= FIRST_EMOJI {
                find_emoji(e, code as u64)
            } else {
                None
            };
            match emoji {
                Some(_) => {
                    sub = sub + 1344;
                    previous = None;
                }
                None => {
                    let shown = if flag { '?' } else { c };
                    assert(first_piece(e@, rest) == Piece::Glyph(shown));
                    let g = glyph_of(font, shown);
                    let adv = advance_of(a, variant, g);
                    let kern: i64 = match previous {
                        Some(left) => kerning_of(font, style, left, g),
                        None => 0,
                    };
                    sub = sub + adv as i64 + kern;
                    previous = Some(g);
                }
            }
        }
        assert(-(i as int) * PIECE_MAX - PIECE_MAX <= sub <= (i as int) * PIECE_MAX + PIECE_MAX);
        i = i + step;
    }
    assert(chars@.skip(i as int) =~= Seq::<char>::empty());
    assert(-(4096 as int) * PIECE_MAX <= sub <= (4096 as int) * PIECE_MAX) by (nonlinear_arith)
        requires -(i as int) * PIECE_MAX <= sub <= (i as int) * PIECE_MAX, i <= 4096;
    sub as i32
}

/// Width of `text` in 1/64 px, kerning included.
pub fn measure_exact(font: &Font, text: &str, style: u16) -> (width: i32)
    requires
        font.wf(),
        font.has_style(style),
        text@.len() <= MEASURE_MAX,
    ensures
        width == text_width(font, text@, style),
        -0x5000_0000 <= width <= 0x5000_0000,
        -(text@.len() as int) * PIECE_MAX <= width <= (text@.len() as int) * PIECE_MAX,
{
    measure_chars(font, chars_of(text).as_slice(), style)
}

/// Width of `text` in whole pixels, rounded up so a background drawn to it always contains it.
pub fn measure(font: &Font, text: &str, style: u16) -> (width: i32)
    requires
        font.wf(),
        font.has_style(style),
        text@.len() <= MEASURE_MAX,
    ensures
        width == text_pixels(font, text@, style),
        -0x200_0000 <= width <= 0x200_0000,
        -(text@.len() as int) * 5200 - 1 <= width <= (text@.len() as int) * 5200 + 1,
{
    let exact = measure_exact(font, text, style);
    let pixels = pixels_of(exact);
    let ghost n = text@.len() as int;
    assert(-n * 5200 - 1 <= pixels <= n * 5200 + 1) by (nonlinear_arith)
        requires
            -n * PIECE_MAX <= exact <= n * PIECE_MAX,
            pixels == div_toward_zero(exact + 63, 64),
            n >= 0,
    ;
    pixels
}

/// Width of the characters `chars` in whole pixels, rounded up.
pub fn measure_run(font: &Font, chars: &[char], style: u16) -> (width: i32)
    requires
        font.wf(),
        font.has_style(style),
        chars@.len() <= MEASURE_MAX,
    ensures
        width == text_pixels(font, chars@, style),
        -0x200_0000 <= width <= 0x200_0000,
{
    pixels_of(measure_chars(font, chars, style))
}

fn pixels_of(exact: i32) -> (pixels: i32)
    requires
        -0x7000_0000 <= exact <= 0x7000_0000,
    ensures
        pixels == div_toward_zero(exact + SUBPIXELS - 1, SUBPIXELS as int),
        -0x200_0000 <= pixels <= 0x200_0000,
{
    let total = exact + 63;
    if total >= 0 { total / 64 } else { -((-total) / 64) }
}

// ---- word wrapping

/// How many characters `s` starts with that are not white space.
pub open spec fn leading_dark(s: Seq<char>) -> int
    decreases s.len(),
{
    if s.len() > 0 && !is_whitespace(s[0]) {
        1 + leading_dark(s.drop_first())
    } else {
        0
    }
}

pub proof fn lemma_runs(s: Seq<char>)
    ensures
        0 <= leading_dark(s) <= s.len(),
        0 <= leading_white(s) <= s.len(),
        s.len() > 0 ==> leading_dark(s) > 0 || leading_white(s) > 0,
    decreases s.len(),
{
    if s.len() > 0 {
        lemma_runs(s.drop_first());
    }
}

/// Where the line that starts `text` ends: as many whole words as fit in `max_width` pixels, and at
/// least one. `pos` is where the next word starts, `end` where the line ends so far.
pub closed spec fn wrap_end(font: &Font, style: u16, max_width: int, text: Seq<char>, pos: int, end: int) -> int
    decreases text.len() - pos,
{
    if pos < 0 || pos >= text.len() {
        end
    } else {
        let word_end = pos + leading_dark(text.skip(pos));
        if end != 0 && text_pixels(font, text.take(word_end), style) > max_width {
            end
        } else {
            let next = word_end + leading_white(text.skip(word_end));
            proof {
                lemma_runs(text.skip(pos));
                lemma_runs(text.skip(word_end));
            }
            if next <= pos { word_end } else { wrap_end(font, style, max_width, text, next, word_end) }
        }
    }
}

/// The first line of `text` (which starts with no white space) and the rest after it.
pub open spec fn first_line(font: &Font, style: u16, max_width: int, text: Seq<char>) -> (Seq<char>, Seq<char>) {
    let end = wrap_end(font, style, max_width, text, 0, 0);
    (text.take(end), trim_start(text.skip(end)))
}

/// Word-wrapped lines of a text, handed out one at a time.
pub struct Lines {
    pub rest: Vec<char>,
    pub style: u16,
    pub max_width: i32,
}

pub fn lines(text: &str, style: u16, max_width: i32) -> (wrapped: Lines)
    ensures
        wrapped.rest@ == trim_start(text@),
        wrapped.style == style,
        wrapped.max_width == max_width,
{
    Lines { rest: trim_start_chars(chars_of(text).as_slice()), style, max_width }
}

/// The number of characters of `s` from `at` that are (`white`) or are not white space.
fn run_from(s: &[char], at: usize, white: bool) -> (n: usize)
    requires
        at <= s@.len(),
    ensures
        n == (if white { leading_white(s@.skip(at as int)) } else { leading_dark(s@.skip(at as int)) }),
        at + n <= s@.len(),
{
    let mut k: usize = at;
    while k < s.len() && whitespace(s[k]) == white
        invariant
            at <= k <= s@.len(),
            forall|j: int| at <= j < k ==> is_whitespace(#[trigger] s@[j]) == white,
        decreases s@.len() - k,
    {
        k = k + 1;
    }
    proof {
        lemma_run_count(s@.skip(at as int), (k - at) as int, white);
    }
    k - at
}

proof fn lemma_run_count(s: Seq<char>, n: int, white: bool)
    requires
        0 <= n <= s.len(),
        forall|j: int| 0 <= j < n ==> is_whitespace(#[trigger] s[j]) == white,
        n == s.len() || is_whitespace(s[n]) != white,
    ensures
        n == (if white { leading_white(s) } else { leading_dark(s) }),
    decreases n,
{
    if n > 0 {
        assert forall|j: int| 0 <= j < n - 1 implies is_whitespace(#[trigger] s.drop_first()[j]) == white by {
            assert(s.drop_first()[j] == s[j + 1]);
        }
        lemma_run_count(s.drop_first(), n - 1, white);
    }
}

impl Lines {
    /// The next line, if any text is left: whole words while they fit, and at least one.
    #[verifier::spinoff_prover]
    #[verifier::rlimit(40)]
    pub fn next(&mut self, font: &Font) -> (line: Option<String>)
        requires
            font.wf(),
            font.has_style(old(self).style),
            old(self).rest@.len() <= MEASURE_MAX,
        ensures
            final(self).style == old(self).style,
            final(self).max_width == old(self).max_width,
            final(self).rest@.len() <= old(self).rest@.len(),
            old(self).rest@.len() == 0 ==> line is None && final(self).rest@ == old(self).rest@,
            old(self).rest@.len() > 0 ==> (line matches Some(l) && ({
                let (first, rest) = first_line(font, old(self).style, old(self).max_width as int, old(self).rest@);
                l@ == first && final(self).rest@ == rest
            })),
            old(self).rest@.len() > 0 && !is_whitespace(old(self).rest@[0]) ==> final(self).rest@.len() < old(self).rest@.len(),
            line matches Some(l) ==> l@.len() <= old(self).rest@.len(),
    {
        if self.rest.len() == 0 {
            return None;
        }
        let ghost text = self.rest@;
        let ghost goal = wrap_end(font, self.style, self.max_width as int, text, 0, 0);
        let len = self.rest.len();
        let mut end: usize = 0;
        let mut pos: usize = 0;
        let mut stopped = false;
        while pos < len && !stopped
            invariant
                0 <= end <= pos <= len,
                len == text.len(),
                text == self.rest@,
                text.len() <= MEASURE_MAX,
                font.wf(),
                font.has_style(self.style),
                !stopped ==> wrap_end(font, self.style, self.max_width as int, text, pos as int, end as int) == goal,
                stopped ==> end == goal,
                stopped ==> end > 0,
                pos > 0 && !is_whitespace(text[0]) ==> end > 0,
            decreases len - pos + (if stopped { 0int } else { 1int }),
        {
            let word_end = pos + run_from(self.rest.as_slice(), pos, false);
            let head = slice_chars(self.rest.as_slice(), 0, word_end);
            assert(head@ =~= text.take(word_end as int));
            if end != 0 && pixels_of(measure_chars(font, head.as_slice(), self.style)) > self.max_width {
                stopped = true;
            } else {
                let next = word_end + run_from(self.rest.as_slice(), word_end, true);
                proof {
                    lemma_runs(text.skip(pos as int));
                    if leading_dark(text.skip(pos as int)) == 0 {
                        assert(is_whitespace(text.skip(pos as int)[0]));
                        assert(text.skip(word_end as int) =~= text.skip(pos as int));
                    }
                }
                proof {
                    if pos == 0 && !is_whitespace(text[0]) {
                        assert(text.skip(0) =~= text);
                        lemma_runs(text);
                    }
                }
                end = word_end;
                pos = next;
            }
        }
        proof {
            lemma_runs(text.subrange(end as int, len as int));
        }
        let line = slice_chars(self.rest.as_slice(), 0, end);
        let rest = trim_start_chars(slice_chars(self.rest.as_slice(), end, len).as_slice());
        assert(line@ =~= text.take(end as int));
        assert(text.skip(end as int) =~= text.subrange(end as int, len as int));
        proof {
            if !is_whitespace(text[0]) {
                lemma_runs(text);
                assert(leading_dark(text.skip(0)) > 0) by {
                    assert(text.skip(0) =~= text);
                }
            }
        }
        self.rest = rest;
        Some(string_of(line.as_slice()))
    }
}

/// What emoji number `index` makes of the pixel `old` at (`col`, `row`) when its top-left corner is
/// at (`x`, `top`): each of its 18 by 18 pixels names one of 16 colours of its palette and an
/// opacity in sixteenths.
pub open spec fn emoji_pixel(e: Seq<u8>, index: int, old: u32, col: int, row: int, x: int, top: int) -> u32 {
    let (c, r) = (col - x, row - top);
    if 0 <= c < EMOJI_SIZE && 0 <= r < EMOJI_SIZE {
        let base = emoji_at(e, index);
        let byte = byte_at(e, base + EMOJI_PALETTE_BYTES + r * EMOJI_SIZE + c);
        let alpha = (byte % 16) * 17;
        let p = base + (byte / 16) * 3;
        let color = (byte_at(e, p) * 0x10000 + byte_at(e, p + 1) * 0x100 + byte_at(e, p + 2)) as u32;
        if alpha != 0 { blended(old, color, alpha, alpha, alpha) } else { old }
    } else {
        old
    }
}

/// Draws emoji number `index` with its top-left corner at (`x`, `top`).
pub fn draw_emoji(canvas: &mut Canvas, font: &Font, x: i32, top: i32, index: usize)
    requires
        old(canvas).wf(),
        font.wf(),
        index < emoji_count(font.emoji@),
        coordinate(x as int),
        coordinate(top as int),
    ensures
        final(canvas).wf(),
        final(canvas).drawn(
            old(canvas),
            (|i: int, p: u32|
                emoji_pixel(font.emoji@, index as int, p, column(old(canvas).w as int, i),
                    line(old(canvas).w as int, old(canvas).y0 as int, i), x as int, top as int)),
        ),
{
    let e = font.emoji.as_slice();
    let ghost prior = canvas.px@;
    let ghost (bw, by0) = (canvas.w as int, canvas.y0 as int);
    proof {
        lemma_grid(bw, by0, canvas.rows as int);
        lemma_u16_bound(e@, 0);
    }
    let base: u64 = 2 + 4 * read_u16(e, 0) + (index as u64) * (EMOJI_ENTRY_BYTES as u64);
    let size = EMOJI_SIZE as i32;
    let (band_top, band_end) = (canvas.y0 - top, canvas.y0 + canvas.rows - top);
    let first = if band_top < 0 { 0 } else if band_top > size { size } else { band_top };
    let last = if band_end < 0 { 0 } else if band_end > size { size } else { band_end };
    let mut row = first;
    while row < last
        invariant
            canvas.same_band(old(canvas)),
            old(canvas).wf(),
            canvas.wf(),
            bw == canvas.w,
            by0 == canvas.y0,
            prior == old(canvas).px@,
            canvas.px@.len() == prior.len(),
            e@ == font.emoji@,
            base == emoji_at(e@, index as int),
            base < 0x1_0000_0000,
            coordinate(x as int),
            coordinate(top as int),
            size == 18,
            first == (if canvas.y0 - top < 0 { 0 } else if canvas.y0 - top > 18 { 18 } else { canvas.y0 - top }),
            last == (if canvas.y0 + canvas.rows - top < 0 { 0 } else if canvas.y0 + canvas.rows - top > 18 { 18 } else { canvas.y0 + canvas.rows - top }),
            first <= row,
            row <= last || row == first,
            forall|i: int|
                0 <= i < prior.len() ==> 0 <= #[trigger] column(bw, i) < bw && by0 <= line(bw, by0, i) < by0 + canvas.rows
                    && spot(bw, by0, column(bw, i), line(bw, by0, i)) == i,
            forall|ax: int, ay: int|
                0 <= ax < bw && by0 <= ay < by0 + canvas.rows ==> 0 <= #[trigger] spot(bw, by0, ax, ay) < prior.len()
                    && column(bw, spot(bw, by0, ax, ay)) == ax && line(bw, by0, spot(bw, by0, ax, ay)) == ay,
            forall|i: int|
                0 <= i < prior.len() ==> #[trigger] canvas.px@[i] == (if before(line(bw, by0, i) - top, column(bw, i) - x, row as int, 0) {
                    emoji_pixel(e@, index as int, prior[i], column(bw, i), line(bw, by0, i), x as int, top as int)
                } else {
                    prior[i]
                }),
        decreases last - row,
    {
        let mut col: i32 = 0;
        while col < size
            invariant
                canvas.same_band(old(canvas)),
                old(canvas).wf(),
                canvas.wf(),
                bw == canvas.w,
                by0 == canvas.y0,
                canvas.px@.len() == prior.len(),
                e@ == font.emoji@,
                base == emoji_at(e@, index as int),
                base < 0x1_0000_0000,
                coordinate(x as int),
                coordinate(top as int),
                size == 18,
                0 <= row < 18,
                by0 <= top + row < by0 + canvas.rows,
                0 <= col <= 18,
                forall|i: int|
                    0 <= i < prior.len() ==> 0 <= #[trigger] column(bw, i) < bw && by0 <= line(bw, by0, i) < by0 + canvas.rows
                        && spot(bw, by0, column(bw, i), line(bw, by0, i)) == i,
                forall|ax: int, ay: int|
                    0 <= ax < bw && by0 <= ay < by0 + canvas.rows ==> 0 <= #[trigger] spot(bw, by0, ax, ay) < prior.len()
                        && column(bw, spot(bw, by0, ax, ay)) == ax && line(bw, by0, spot(bw, by0, ax, ay)) == ay,
                forall|i: int|
                    0 <= i < prior.len() ==> #[trigger] canvas.px@[i] == (if before(line(bw, by0, i) - top, column(bw, i) - x, row as int, col as int) {
                        emoji_pixel(e@, index as int, prior[i], column(bw, i), line(bw, by0, i), x as int, top as int)
                    } else {
                        prior[i]
                    }),
            decreases 18 - col,
        {
            let byte = read_byte(e, base + EMOJI_PALETTE_BYTES as u64 + (row as u64) * 18 + col as u64);
            let alpha = (byte % 16) * 17;
            if alpha != 0 {
                let p = base + (byte / 16) * 3;
                let color = read_byte(e, p) * 0x10000 + read_byte(e, p + 1) * 0x100 + read_byte(e, p + 2);
                canvas.blend(x + col, top + row, color as u32, alpha as u8);
            }
            col = col + 1;
        }
        row = row + 1;
    }
}

// ---- drawing text

/// A byte read as a signed number.
pub open spec fn signed(b: int) -> int {
    if b >= 128 { b - 256 } else { b }
}

/// The coverage bytes of glyph slot `g` of style slot `v`: three per pixel (a filtered sub-pixel
/// each), row after row.
pub open spec fn glyph_coverage(a: Seq<u8>, v: int, g: int) -> Seq<u8> {
    let at = glyph_at(a, v, g);
    let (w, h, off) = (byte_at(a, at + 4), byte_at(a, at + 5), u32_at(a, at + 6));
    restore(expand(a.subrange(off, a.len() as int), 0, w * h * 3), (w * 3) as nat)
}

/// Sub-pixel `index` of row `r` of a glyph `w` pixels wide; 0 outside the row.
pub open spec fn sample(cov: Seq<u8>, w: int, r: int, index: int) -> int {
    if 0 <= index < w * 3 { cov[r * w * 3 + index] as int } else { 0 }
}

/// Channel `k` of pixel `c` of row `r` of a glyph drawn `phase` quarters of a pixel to the right:
/// the stream read shifted by three quarters of a sub-pixel per quarter, blending two neighbours.
pub open spec fn lcd_channel(cov: Seq<u8>, w: int, r: int, c: int, k: int, phase: int) -> int {
    let (shift_whole, weight_late) = (phase * 3 / 4, phase * 3 % 4);
    let source = c * 3 + k - shift_whole;
    ((4 - weight_late) * sample(cov, w, r, source) + weight_late * sample(cov, w, r, source - 1)) / 4
}

/// What glyph slot `g` of style slot `v` makes of the pixel `old` at (`col`, `row`) when the pen
/// is at `pen` (in 1/64 px) on the line of `baseline`: the pen is placed to the nearest quarter of
/// a pixel and the glyph laid with LCD coverage, one opacity per channel.
pub open spec fn glyph_pixel(a: Seq<u8>, v: int, g: int, old: u32, col: int, row: int, pen: int, baseline: int, color: u32) -> u32 {
    let at = glyph_at(a, v, g);
    let (w, h) = (byte_at(a, at + 4), byte_at(a, at + 5));
    let quarter = (pen * 4 + 32) / 64;
    let (whole, phase) = (quarter / 4, quarter % 4);
    let (c, r) = (col - (whole + signed(byte_at(a, at + 2))), row - (baseline + signed(byte_at(a, at + 3))));
    let cov = glyph_coverage(a, v, g);
    if 0 <= r < h && 0 <= c < w + (if phase > 0 { 1int } else { 0 }) {
        let (r0, g0, b0) = (lcd_channel(cov, w, r, c, 0, phase), lcd_channel(cov, w, r, c, 1, phase), lcd_channel(cov, w, r, c, 2, phase));
        if r0 != 0 || g0 != 0 || b0 != 0 { blended(old, color, r0, g0, b0) } else { old }
    } else {
        old
    }
}

/// The pixels `px` of a band `w` wide from row `y0` after `s` is drawn on the line of `baseline`,
/// the pen at `pen` after a glyph of slot `previous` (or none).
pub open spec fn ink(font: &Font, style: u16, color: u32, baseline: int, w: int, y0: int, px: Seq<u32>, s: Seq<char>, pen: int,
    previous: Option<int>) -> Seq<u32>
    decreases s.len(),
{
    if s.len() == 0 {
        px
    } else {
        let (a, e) = (font.atlas@, font.emoji@);
        let rest = s.skip(piece_len(s));
        match first_piece(e, s) {
            Piece::Skip => ink(font, style, color, baseline, w, y0, px, rest, pen, previous),
            Piece::Emoji(index) => {
                let x = div_toward_zero(pen + SUBPIXELS / 2, SUBPIXELS as int) + 1;
                let stamped = Seq::new(px.len(), |i: int| emoji_pixel(e, index as int, px[i], column(w, i), line(w, y0, i), x, baseline - EMOJI_RISE));
                ink(font, style, color, baseline, w, y0, stamped, rest, pen + EMOJI_ADVANCE * SUBPIXELS, None)
            },
            Piece::Glyph(c) => {
                let g = glyph_slot(a, c);
                let at = pen + match previous {
                    Some(left) => kerning(a, style, left, g),
                    None => 0,
                };
                let stamped = Seq::new(px.len(), |i: int| glyph_pixel(a, style_slot(a, style)->0, g, px[i], column(w, i), line(w, y0, i), at, baseline, color));
                ink(font, style, color, baseline, w, y0, stamped, rest, at + advance(a, style, c), Some(g))
            },
        }
    }
}

/// Sub-pixel `index` of row `row` of a glyph `w` by `h` lies in its coverage bytes.
proof fn lemma_cell(w: int, h: int, row: int, index: int)
    requires
        0 <= row < h,
        0 <= index < w * 3,
        w < 256,
        h < 256,
    ensures
        w * h > 0,
        0 <= row * (w * 3) + index < w * h * 3,
        row * (w * 3) == row * w * 3,
        row * (w * 3) + index <= 0x10_0000,
{
    assert(w * h > 0 && 0 <= row * (w * 3) + index < w * h * 3 && row * (w * 3) == row * w * 3 && row * (w * 3) + index <= 0x10_0000)
        by (nonlinear_arith)
        requires
            0 <= row < h,
            0 <= index < w * 3,
            w < 256,
            h < 256,
    ;
}

/// Euclidean quotient and remainder by a small positive number.
fn floor_div(n: i64, d: i64) -> (qr: (i64, i64))
    requires
        0 < d <= 64,
        -0x1_0000_0000_0000 <= n <= 0x1_0000_0000_0000,
    ensures
        qr.0 == n / d,
        qr.1 == n % d,
        0 <= qr.1 < d,
{
    let k: i64 = 0x1_0000_0000_0000;
    let shifted = n + k * d;
    proof {
        vstd::arithmetic::div_mod::lemma_hoist_over_denominator(n as int, k as int, d as nat);
        vstd::arithmetic::div_mod::lemma_mod_multiples_vanish(k as int, n as int, d as int);
        assert(k * d == d * k);
    }
    (shifted / d - k, shifted % d)
}

/// Lays glyph slot `g` of style slot `v` with the pen at `pen` on the line of `baseline`.
#[verifier::spinoff_prover]
#[verifier::rlimit(60)]
fn stamp_glyph(canvas: &mut Canvas, font: &Font, v: u64, g: u64, pen: i64, baseline: i32, color: u32)
    requires
        old(canvas).wf(),
        font.wf(),
        v < variant_count(font.atlas@),
        g < char_count(font.atlas@),
        -0x4_0000_0000 <= pen <= 0x4_0000_0000,
        coordinate(baseline as int),
    ensures
        final(canvas).wf(),
        final(canvas).drawn(
            old(canvas),
            (|i: int, p: u32|
                glyph_pixel(font.atlas@, v as int, g as int, p, column(old(canvas).w as int, i),
                    line(old(canvas).w as int, old(canvas).y0 as int, i), pen as int, baseline as int, color)),
        ),
{
    let a = font.atlas.as_slice();
    let ghost prior = canvas.px@;
    let ghost (bw, by0) = (canvas.w as int, canvas.y0 as int);
    proof {
        lemma_grid(bw, by0, canvas.rows as int);
        lemma_u16_bound(a@, 1);
        lemma_u16_bound(a@, 0);
        assert(glyph_drawable(a@, v as int, g as int));
    }
    let count = read_u16(a, 1);
    let tables = read_u32(a, 3 + 2 * read_byte(a, 0) + 2 * count + 12);
    assert((v * count + g) * 10 < 256 * 65536 * 10) by (nonlinear_arith)
        requires
            v < 256,
            g < count,
            count < 65536,
    ;
    let at = tables + (v * count + g) * 10;
    assert(at == glyph_at(a@, v as int, g as int));
    let w = read_byte(a, at + 4);
    let h = read_byte(a, at + 5);
    let lb = read_byte(a, at + 2);
    let tb = read_byte(a, at + 3);
    let left: i64 = if lb >= 128 { lb as i64 - 256 } else { lb as i64 };
    let top: i64 = if tb >= 128 { tb as i64 - 256 } else { tb as i64 };
    let off = read_u32(a, at + 6);
    let ghost cov = glyph_coverage(a@, v as int, g as int);
    let (quarter, _) = floor_div(pen * 4 + 32, 64);
    let (whole, phase) = floor_div(quarter, 4);
    let shift = phase * 3;
    let (shift_whole, weight_late) = (shift / 4, shift % 4);
    let gx = (whole + left) as i32;
    let gy = baseline + top as i32;
    let (band_top, band_end) = (canvas.y0 as i64 - gy as i64, canvas.y0 as i64 + canvas.rows as i64 - gy as i64);
    let first = if band_top < 0 { 0 } else if band_top > h as i64 { h as i64 } else { band_top };
    let last = if band_end < 0 { 0 } else if band_end > h as i64 { h as i64 } else { band_end };
    let stream = (w * 3) as usize;
    let total = (w * h * 3) as usize;
    let coverage: Vec<u8> = if w * h > 0 && first < last {
        assert(w > 0) by (nonlinear_arith)
            requires
                w * h > 0,
        ;
        let packed = vstd::slice::slice_subrange(a, off as usize, a.len());
        let res = crate::bake::expand_tokens(packed, total);
        proof {
            let end = choose|end: int| #[trigger] tokens_end(packed@, 0, total as int, end);
            crate::bake::lemma_expand_len(packed@, 0, total as int, end);
            crate::bake::lemma_restore_len(res@, stream as nat);
        }
        crate::bake::restore_bytes(res.as_slice(), stream)
    } else {
        Vec::new()
    };
    let columns: i64 = w as i64 + if phase > 0 { 1 } else { 0 };
    let mut row = first;
    while row < last
        invariant
            canvas.same_band(old(canvas)),
            old(canvas).wf(),
            canvas.wf(),
            bw == canvas.w,
            by0 == canvas.y0,
            prior == old(canvas).px@,
            canvas.px@.len() == prior.len(),
            a@ == font.atlas@,
            w == byte_at(a@, glyph_at(a@, v as int, g as int) + 4),
            h == byte_at(a@, glyph_at(a@, v as int, g as int) + 5),
            w < 256,
            h < 256,
            stream == w * 3,
            0 <= first <= row,
            row <= last <= h,
            first < last ==> w * h > 0 ==> coverage@ == cov,
            first < last ==> w * h > 0 ==> coverage@.len() == w * h * 3,
            cov == glyph_coverage(a@, v as int, g as int),
            gx as int == (pen * 4 + 32) / 64 / 4 + signed(byte_at(a@, glyph_at(a@, v as int, g as int) + 2)),
            gy as int == baseline + signed(byte_at(a@, glyph_at(a@, v as int, g as int) + 3)),
            phase == (pen * 4 + 32) / 64 % 4,
            0 <= phase < 4,
            shift_whole == phase * 3 / 4,
            weight_late == phase * 3 % 4,
            columns == w + (if phase > 0 { 1int } else { 0 }),
            -0x2000_0000 <= gx <= 0x2000_0000,
            -0x1000_0100 <= gy <= 0x1000_0100,
            first == (if canvas.y0 - gy < 0 { 0 } else if canvas.y0 - gy > h { h as int } else { canvas.y0 - gy }),
            last == (if canvas.y0 + canvas.rows - gy < 0 { 0 } else if canvas.y0 + canvas.rows - gy > h { h as int } else { canvas.y0 + canvas.rows - gy }),
            forall|i: int|
                0 <= i < prior.len() ==> 0 <= #[trigger] column(bw, i) < bw && by0 <= line(bw, by0, i) < by0 + canvas.rows
                    && spot(bw, by0, column(bw, i), line(bw, by0, i)) == i,
            forall|ax: int, ay: int|
                0 <= ax < bw && by0 <= ay < by0 + canvas.rows ==> 0 <= #[trigger] spot(bw, by0, ax, ay) < prior.len()
                    && column(bw, spot(bw, by0, ax, ay)) == ax && line(bw, by0, spot(bw, by0, ax, ay)) == ay,
            forall|i: int|
                0 <= i < prior.len() ==> #[trigger] canvas.px@[i] == (if before(line(bw, by0, i) - gy, column(bw, i) - gx, row as int, 0) {
                    glyph_pixel(a@, v as int, g as int, prior[i], column(bw, i), line(bw, by0, i), pen as int, baseline as int, color)
                } else {
                    prior[i]
                }),
        decreases last - row,
    {
        let mut col: i64 = 0;
        while col < columns
            invariant
                canvas.same_band(old(canvas)),
                old(canvas).wf(),
                canvas.wf(),
                bw == canvas.w,
                by0 == canvas.y0,
                canvas.px@.len() == prior.len(),
                a@ == font.atlas@,
                w < 256,
                h < 256,
                stream == w * 3,
                0 <= row < h,
                w * h > 0 ==> coverage@ == cov,
                w * h > 0 ==> coverage@.len() == w * h * 3,
                cov == glyph_coverage(a@, v as int, g as int),
                w == byte_at(a@, glyph_at(a@, v as int, g as int) + 4),
                h == byte_at(a@, glyph_at(a@, v as int, g as int) + 5),
                gx as int == (pen * 4 + 32) / 64 / 4 + signed(byte_at(a@, glyph_at(a@, v as int, g as int) + 2)),
                gy as int == baseline + signed(byte_at(a@, glyph_at(a@, v as int, g as int) + 3)),
                phase == (pen * 4 + 32) / 64 % 4,
                0 <= phase < 4,
                shift_whole == phase * 3 / 4,
                weight_late == phase * 3 % 4,
                columns == w + (if phase > 0 { 1int } else { 0 }),
                0 <= col <= columns,
                -0x2000_0000 <= gx <= 0x2000_0000,
                -0x1000_0100 <= gy <= 0x1000_0100,
                by0 <= gy + row < by0 + canvas.rows,
                forall|i: int|
                    0 <= i < prior.len() ==> 0 <= #[trigger] column(bw, i) < bw && by0 <= line(bw, by0, i) < by0 + canvas.rows
                        && spot(bw, by0, column(bw, i), line(bw, by0, i)) == i,
                forall|ax: int, ay: int|
                    0 <= ax < bw && by0 <= ay < by0 + canvas.rows ==> 0 <= #[trigger] spot(bw, by0, ax, ay) < prior.len()
                        && column(bw, spot(bw, by0, ax, ay)) == ax && line(bw, by0, spot(bw, by0, ax, ay)) == ay,
                forall|i: int|
                    0 <= i < prior.len() ==> #[trigger] canvas.px@[i] == (if before(line(bw, by0, i) - gy, column(bw, i) - gx, row as int, col as int) {
                        glyph_pixel(a@, v as int, g as int, prior[i], column(bw, i), line(bw, by0, i), pen as int, baseline as int, color)
                    } else {
                        prior[i]
                    }),
            decreases columns - col,
        {
            let mut coverage3: [u8; 3] = [0, 0, 0];
            let mut k: usize = 0;
            let ghost mut values: Seq<int> = Seq::empty();
            while k < 3
                invariant
                    0 <= k <= 3,
                    w < 256,
                    stream == w * 3,
                    0 <= row < h,
                    0 <= col <= 256,
                    0 <= phase < 4,
                    shift_whole == phase * 3 / 4,
                    weight_late == phase * 3 % 4,
                    w * h > 0 ==> coverage@ == cov,
                    w * h > 0 ==> coverage@.len() == w * h * 3,
                    h < 256,
                    forall|j: int| 0 <= j < k ==> coverage3@[j] as int == lcd_channel(cov, w as int, row as int, col as int, j, phase as int),
                decreases 3 - k,
            {
                let source = col * 3 + k as i64 - shift_whole;
                let early = if 0 <= source && source < stream as i64 {
                    proof { lemma_cell(w as int, h as int, row as int, source as int); }
                    coverage[(row as usize) * stream + source as usize] as i64
                } else {
                    0
                };
                let late = if 0 <= source - 1 && source - 1 < stream as i64 {
                    proof { lemma_cell(w as int, h as int, row as int, source - 1); }
                    coverage[(row as usize) * stream + (source - 1) as usize] as i64
                } else {
                    0
                };
                assert(0 <= (4 - weight_late) * early + weight_late * late <= 4 * 255) by (nonlinear_arith)
                    requires
                        0 <= weight_late <= 3,
                        0 <= early <= 255,
                        0 <= late <= 255,
                ;
                let value = ((4 - weight_late) * early + weight_late * late) / 4;
                coverage3.set(k, value as u8);
                k = k + 1;
            }
            if coverage3[0] != 0 || coverage3[1] != 0 || coverage3[2] != 0 {
                canvas.blend_lcd((gx as i64 + col) as i32, gy + row as i32, color, coverage3);
            }
            col = col + 1;
        }
        row = row + 1;
    }
}

/// The emoji atlas' numbers are below its count.
proof fn lemma_emoji_slots(e: Seq<u8>)
    ensures
        forall|k: int| #[trigger] emoji_slot(e, k) matches Some(i) ==> 0 <= i < emoji_count(e),
{
}

/// `text` drawn on `px` with its first pen position at `x` and its baseline at `baseline`; a line
/// that lies wholly above or below the band is skipped.
pub open spec fn text_drawn(font: &Font, px: Seq<u32>, w: int, y0: int, rows: int, x: int, baseline: int, style: u16, color: u32,
    text: Seq<char>) -> Seq<u32> {
    let size = (style % 256) as int;
    if baseline - size - EMOJI_RISE >= y0 + rows || baseline + size < y0 {
        px
    } else {
        ink(font, style, color, baseline, w, y0, px, text, x * SUBPIXELS, None)
    }
}

/// Draws the piece of `chars` at `i` (a glyph, an emoji, or nothing) and moves the pen past it:
/// returns how many characters it took, the new pen and the glyph slot it leaves behind.
#[verifier::spinoff_prover]
#[verifier::rlimit(80)]
fn draw_piece(canvas: &mut Canvas, font: &Font, variant: u64, style: u16, color: u32, baseline: i32, chars: &[char], i: usize,
    pen: i64, previous: Option<u64>) -> (next: (usize, i64, Option<u64>))
    requires
        old(canvas).wf(),
        font.wf(),
        style_slot(font.atlas@, style) == Some(variant as int),
        variant < variant_count(font.atlas@),
        variant < 256,
        chars@.len() <= MEASURE_MAX,
        i < chars@.len(),
        -0x3_0000_0000 <= pen <= 0x3_0000_0000,
        -0x0F00_0000 <= baseline <= 0x0F00_0000,
        match previous { Some(p) => p < char_count(font.atlas@), None => true },
    ensures
        final(canvas).wf(),
        final(canvas).same_band(old(canvas)),
        i < next.0 <= chars@.len(),
        next.0 == i + piece_len(chars@.skip(i as int)),
        pen - PIECE_MAX <= next.1 <= pen + PIECE_MAX,
        match next.2 { Some(p) => p < char_count(font.atlas@), None => true },
        ink(font, style, color, baseline as int, old(canvas).w as int, old(canvas).y0 as int, old(canvas).px@, chars@.skip(i as int),
            pen as int, match previous { Some(p) => Some(p as int), None => None })
            == ink(font, style, color, baseline as int, old(canvas).w as int, old(canvas).y0 as int, final(canvas).px@,
            chars@.skip(next.0 as int), next.1 as int, match next.2 { Some(p) => Some(p as int), None => None }),
{
    let a = font.atlas.as_slice();
    let e = font.emoji.as_slice();
    let ghost rest = chars@.skip(i as int);
    let ghost before = canvas.px@;
    let ghost (bw, by0) = (canvas.w as int, canvas.y0 as int);
    let c = chars[i];
    let code = c as u32;
    assert(rest[0] == c);
    let flag = code == 0x1F1E7 && i + 1 < chars.len() && chars[i + 1] as u32 == 0x1F1F7;
    assert(flag == starts_with_flag(rest));
    let step: usize = if flag { 2 } else { 1 };
    assert(rest.skip(piece_len(rest)) =~= chars@.skip(i + step));
    if is_skip_code(code) {
        assert(first_piece(e@, rest) == Piece::Skip);
        return (i + step, pen, previous);
    }
    let emoji = if flag {
        find_emoji(e, BRAZIL_FLAG as u64)
    } else if code >= FIRST_EMOJI {
        find_emoji(e, code as u64)
    } else {
        None
    };
    match emoji {
        Some(index) => {
            proof { lemma_emoji_slots(e@); }
            let total = pen + 32;
            let ex = (if total >= 0 { total / 64 } else { -((-total) / 64) }) + 1;
            draw_emoji(canvas, font, ex as i32, baseline - EMOJI_RISE, index as usize);
            proof {
                assert(canvas.px@ =~= Seq::new(before.len(), |j: int| emoji_pixel(e@, index as int, before[j], column(bw, j),
                    line(bw, by0, j), ex as int, baseline - EMOJI_RISE)));
            }
            (i + step, pen + 1344, None)
        }
        None => {
            let shown = if flag { '?' } else { c };
            assert(first_piece(e@, rest) == Piece::Glyph(shown));
            let g = glyph_of(font, shown);
            let adv = advance_of(a, variant, g);
            let kern: i64 = match previous {
                Some(left) => kerning_of(font, style, left, g),
                None => 0,
            };
            let at = pen + kern;
            stamp_glyph(canvas, font, variant, g, at, baseline, color);
            proof {
                assert(canvas.px@ =~= Seq::new(before.len(), |j: int| glyph_pixel(a@, variant as int, g as int, before[j],
                    column(bw, j), line(bw, by0, j), at as int, baseline as int, color)));
                assert(adv == advance(a@, style, shown));
            }
            (i + step, at + adv as i64, Some(g))
        }
    }
}

/// Draws `text` in `style` and `color` from pen position `x` on the line of `baseline`.
pub fn draw(canvas: &mut Canvas, font: &Font, x: i32, baseline: i32, style: u16, color: u32, text: &str)
    requires
        old(canvas).wf(),
        font.wf(),
        font.has_style(style),
        text@.len() <= MEASURE_MAX,
        -0x200_0000 <= x <= 0x200_0000,
        -0x0F00_0000 <= baseline <= 0x0F00_0000,
    ensures
        final(canvas).wf(),
        final(canvas).same_band(old(canvas)),
        final(canvas).px@ == text_drawn(font, old(canvas).px@, old(canvas).w as int, old(canvas).y0 as int, old(canvas).rows as int,
            x as int, baseline as int, style, color, text@),
{
    let size = (style % 256) as i32;
    if baseline - size - EMOJI_RISE >= canvas.y0 + canvas.rows || baseline + size < canvas.y0 {
        return;
    }
    let chars = chars_of(text);
    let a = font.atlas.as_slice();
    let variant = find_style(a, style).unwrap();
    let ghost (bw, by0) = (canvas.w as int, canvas.y0 as int);
    let ghost target = text_drawn(font, canvas.px@, bw, by0, canvas.rows as int, x as int, baseline as int, style, color, text@);
    let mut pen: i64 = x as i64 * 64;
    let mut previous: Option<u64> = None;
    let mut i: usize = 0;
    assert(chars@.skip(0) =~= chars@);
    while i < chars.len()
        invariant
            0 <= i <= chars@.len(),
            chars@ == text@,
            chars@.len() <= MEASURE_MAX,
            a@ == font.atlas@,
            font.wf(),
            canvas.wf(),
            canvas.same_band(old(canvas)),
            bw == canvas.w,
            by0 == canvas.y0,
            style_slot(a@, style) == Some(variant as int),
            variant < 256,
            variant < variant_count(a@),
            -0x0F00_0000 <= baseline <= 0x0F00_0000,
            -(0x200_0000 * 64) - (i as int) * PIECE_MAX <= pen <= 0x200_0000 * 64 + (i as int) * PIECE_MAX,
            match previous { Some(p) => p < char_count(a@), None => true },
            ink(font, style, color, baseline as int, bw, by0, canvas.px@, chars@.skip(i as int),
                pen as int, match previous { Some(p) => Some(p as int), None => None }) == target,
        decreases chars@.len() - i,
    {
        assert(-(0x200_0000 * 64) - (i as int) * PIECE_MAX >= -0x3_0000_0000
            && 0x200_0000 * 64 + (i as int) * PIECE_MAX <= 0x3_0000_0000) by (nonlinear_arith)
            requires i <= 4096;
        let (next, p, prev) = draw_piece(canvas, font, variant, style, color, baseline, chars.as_slice(), i, pen, previous);
        pen = p;
        previous = prev;
        i = next;
    }
    assert(chars@.skip(i as int) =~= Seq::<char>::empty());
}

} // verus!
