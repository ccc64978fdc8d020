//! The geometry of the chat screen shared by the layout and the drawing: where the list ends, and
//! the size of a message bubble.

use vstd::prelude::*;
use crate::font::{Font, Lines, lines, first_line, wrap_end, text_pixels, measure, lemma_runs, MEASURE_MAX};
use crate::text::{is_whitespace, leading_white, trim_start};

verus! {

pub const RAIL_W: i32 = 64;
pub const HEADER_H: i32 = 64;
pub const ROW_H: i32 = 72;
pub const INPUT_H: i32 = 64;
/// Below the header, the search box and the filter chips.
pub const LIST_TOP: i32 = 162;
/// Message text, as WhatsApp Web sets it (14.2 px in the page, rounded here).
pub const BODY: u16 = 14;
pub const META: u16 = 12;
pub const LINE_HEIGHT: i32 = 19;
pub const BUBBLE_PAD_X: i32 = 12;
pub const BUBBLE_PAD_Y: i32 = 8;
pub const META_ROW: i32 = 15;
pub const META_GAP: i32 = 8;
pub const TICKS_WIDTH: i32 = 18;
/// Room the small star of a favourite message takes before the time.
pub const STAR_WIDTH: i32 = 14;
/// Height a quoted message adds to a bubble.
pub const QUOTE_H: i32 = 44;
/// Space between a message's box and its text.
pub const BLOCK_GAP: i32 = 4;
/// The tallest box a message carries; a photo's is at most 300 pixels.
pub const BLOCK_MAX_H: i32 = 0x10000;

/// The list panel's share of the window: 30%, between 300 and 575 pixels.
pub open spec fn panel_width(window_width: int) -> int {
    let share = (window_width * 30) / 100;
    if share < 300 { 300 } else if share > 575 { 575 } else { share }
}

/// Where the conversation list ends and the open conversation begins: the icon rail plus a list
/// panel that takes 30% of the window.
pub fn sidebar_width(window_width: i32) -> (width: i32)
    requires
        0 <= window_width <= 0x100_0000,
    ensures
        width == RAIL_W + panel_width(window_width as int),
{
    let share: i32 = window_width * 30 / 100;
    RAIL_W + if share < 300 { 300 } else if share > 575 { 575 } else { share }
}

/// Whether a font can measure the chat screen's text: it is in order and has its two styles.
pub open spec fn can_measure(font: &Font) -> bool {
    font.wf() && font.has_style(BODY) && font.has_style(META)
}

/// Width of the time of a bubble, with its ticks and star.
pub open spec fn meta_pixels(font: &Font, time: Seq<char>, outgoing: bool, starred: bool) -> int {
    text_pixels(font, time, META) + (if outgoing { 4 + TICKS_WIDTH } else { 0 }) + (if starred { STAR_WIDTH } else { 0 })
}

pub fn meta_width(font: &Font, time: &str, outgoing: bool, starred: bool) -> (width: i32)
    requires
        can_measure(font),
        time@.len() <= MEASURE_MAX,
    ensures
        width == meta_pixels(font, time@, outgoing, starred),
        -0x300_0000 <= width <= 0x300_0000,
{
    measure(font, time, META) + if outgoing { 4 + TICKS_WIDTH } else { 0 } + if starred { STAR_WIDTH } else { 0 }
}

/// The lines `text` (which starts with no white space) wraps into.
pub open spec fn wrapped(font: &Font, style: u16, max_width: int, text: Seq<char>) -> Seq<Seq<char>>
    decreases text.len(),
{
    if text.len() == 0 {
        Seq::empty()
    } else {
        let (first, rest) = first_line(font, style, max_width, text);
        if rest.len() < text.len() {
            seq![first] + wrapped(font, style, max_width, rest)
        } else {
            seq![first]
        }
    }
}

/// The widest of the lines, in pixels, and 0 for none.
pub open spec fn widest(font: &Font, lines: Seq<Seq<char>>) -> int
    decreases lines.len(),
{
    if lines.len() == 0 {
        0
    } else {
        let before = widest(font, lines.drop_last());
        let here = text_pixels(font, lines.last(), BODY);
        if here > before { here } else { before }
    }
}

/// The width of the last line, 0 for none.
pub open spec fn last_width(font: &Font, lines: Seq<Seq<char>>) -> int {
    if lines.len() == 0 { 0 } else { text_pixels(font, lines.last(), BODY) }
}

pub struct BubbleShape {
    /// Width of the text area, without the horizontal padding.
    pub width: i32,
    pub height: i32,
    /// Whether the time shares the last line of text instead of taking a row of its own.
    pub time_inline: bool,
}

pub open spec fn max(a: int, b: int) -> int {
    if a >= b { a } else { b }
}

/// The shape of a bubble with `text` and `time`, wrapped at `text_limit`, holding a quote of
/// `quote_width` (0 for none) and a box of `block` (width, height; 0 for none).
pub open spec fn shape_of(font: &Font, text: Seq<char>, time: Seq<char>, outgoing: bool, starred: bool, text_limit: int,
    quote_width: int, block: (int, int)) -> (int, int, bool)
{
    let meta = meta_pixels(font, time, outgoing, starred);
    let lines = wrapped(font, BODY, text_limit, trim_start(text));
    let last = last_width(font, lines);
    let wide = widest(font, lines);
    let time_inline = last + META_GAP + meta <= text_limit;
    let width = max(max(if time_inline { max(wide, last + META_GAP + meta) } else { max(wide, meta) }, quote_width), block.0);
    let count = if lines.len() > 1 { lines.len() as int } else { 1 };
    let height = 2 * BUBBLE_PAD_Y + count * LINE_HEIGHT + (if time_inline { 0 } else { META_ROW })
        + (if quote_width > 0 { QUOTE_H } else { 0 }) + (if block.1 > 0 { block.1 + BLOCK_GAP } else { 0 });
    (width, height, time_inline)
}

proof fn lemma_trimmed(s: Seq<char>)
    ensures
        trim_start(s).len() > 0 ==> !is_whitespace(trim_start(s)[0]),
        0 <= leading_white(s) <= s.len(),
    decreases s.len(),
{
    lemma_runs(s);
    if s.len() > 0 && is_whitespace(s[0]) {
        lemma_trimmed(s.drop_first());
        assert(trim_start(s) =~= trim_start(s.drop_first()));
    }
}

/// `quote_width` is the width of the quoted message's block, or 0 when the bubble quotes nothing.
pub fn bubble_shape(font: &Font, text: &str, time: &str, outgoing: bool, starred: bool, text_limit: i32, quote_width: i32,
    block: (i32, i32)) -> (shape: BubbleShape)
    requires
        can_measure(font),
        text@.len() <= MEASURE_MAX,
        time@.len() <= MEASURE_MAX,
        -0x1000_0000 <= text_limit <= 0x1000_0000,
        block.1 <= BLOCK_MAX_H,
    ensures
        (shape.width as int, shape.height as int, shape.time_inline)
            == shape_of(font, text@, time@, outgoing, starred, text_limit as int, quote_width as int, (block.0 as int, block.1 as int)),
        0 < shape.height <= 0x40000,
        -0x1000_0000 <= quote_width <= 0x1000_0000 && 0 <= block.0 <= 0x1000 ==> -0x1000_0000 <= shape.width <= 0x1000_0000,
{
    let meta = meta_width(font, time, outgoing, starred);
    let mut wrap: Lines = lines(text, BODY, text_limit);
    assert(wrap.rest@.len() <= text@.len()) by { lemma_trimmed(text@); }
    let ghost all = wrapped(font, BODY, text_limit as int, wrap.rest@);
    let mut count: i32 = 0;
    let mut wide: i32 = 0;
    let mut last: i32 = 0;
    let ghost mut seen: Seq<Seq<char>> = Seq::empty();
    proof {
        lemma_trimmed(text@);
    }
    while wrap.rest.len() > 0
        invariant
            can_measure(font),
            wrap.style == BODY,
            wrap.max_width == text_limit,
            wrap.rest@.len() <= MEASURE_MAX,
            wrap.rest@.len() > 0 ==> !is_whitespace(wrap.rest@[0]),
            all == seen + wrapped(font, BODY, text_limit as int, wrap.rest@),
            count == seen.len(),
            count <= MEASURE_MAX - wrap.rest@.len(),
            wide == widest(font, seen),
            last == last_width(font, seen),
            -0x200_0000 <= wide <= 0x200_0000,
            -0x200_0000 <= last <= 0x200_0000,
        decreases wrap.rest@.len(),
    {
        let ghost before = wrap.rest@;
        let line = wrap.next(font).unwrap();
        proof {
            lemma_trimmed(before.skip(wrap_end(font, BODY, text_limit as int, before, 0, 0)));
        }
        let width = measure(font, line.as_str(), BODY);
        count = count + 1;
        if width > wide {
            wide = width;
        }
        last = width;
        proof {
            let old_seen = seen;
            seen = seen.push(line@);
            assert(seen.drop_last() =~= old_seen);
            assert(old_seen + wrapped(font, BODY, text_limit as int, before)
                =~= seen + wrapped(font, BODY, text_limit as int, wrap.rest@));
        }
    }
    assert(seen =~= all);
    let time_inline = last + META_GAP + meta <= text_limit;
    let mut width: i32 = if time_inline {
        if wide >= last + META_GAP + meta { wide } else { last + META_GAP + meta }
    } else {
        if wide >= meta { wide } else { meta }
    };
    if quote_width > width {
        width = quote_width;
    }
    if block.0 > width {
        width = block.0;
    }
    let lines_shown: i32 = if count > 1 { count } else { 1 };
    let height: i32 = 2 * BUBBLE_PAD_Y + lines_shown * LINE_HEIGHT + if time_inline { 0 } else { META_ROW }
        + if quote_width > 0 { QUOTE_H } else { 0 } + if block.1 > 0 { block.1 + BLOCK_GAP } else { 0 };
    BubbleShape { width, height, time_inline }
}

/// How many lines `text` wraps into at `max_width` in `style`.
pub fn line_count(font: &Font, text: &str, style: u16, max_width: i32) -> (count: usize)
    requires
        font.wf(),
        font.has_style(style),
        text@.len() <= MEASURE_MAX,
    ensures
        count == wrapped(font, style, max_width as int, trim_start(text@)).len(),
        count <= MEASURE_MAX,
{
    let mut wrap: Lines = lines(text, style, max_width);
    assert(wrap.rest@.len() <= text@.len()) by { lemma_trimmed(text@); }
    let ghost all = wrapped(font, style, max_width as int, wrap.rest@);
    let mut count: usize = 0;
    let ghost mut seen: Seq<Seq<char>> = Seq::empty();
    proof {
        lemma_trimmed(text@);
    }
    while wrap.rest.len() > 0
        invariant
            font.wf(),
            font.has_style(style),
            wrap.style == style,
            wrap.max_width == max_width,
            wrap.rest@.len() <= MEASURE_MAX,
            wrap.rest@.len() > 0 ==> !is_whitespace(wrap.rest@[0]),
            all == seen + wrapped(font, style, max_width as int, wrap.rest@),
            count == seen.len(),
            count <= MEASURE_MAX - wrap.rest@.len(),
        decreases wrap.rest@.len(),
    {
        let ghost before = wrap.rest@;
        let line = wrap.next(font).unwrap();
        proof {
            lemma_trimmed(before.skip(wrap_end(font, style, max_width as int, before, 0, 0)));
        }
        count = count + 1;
        proof {
            let old_seen = seen;
            seen = seen.push(line@);
            assert(seen.drop_last() =~= old_seen);
            assert(old_seen + wrapped(font, style, max_width as int, before)
                =~= seen + wrapped(font, style, max_width as int, wrap.rest@));
        }
    }
    assert(seen =~= all);
    count
}

} // verus!
