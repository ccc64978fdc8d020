//! Where things are on the screen: the boxes, buttons and bubbles a click can land on, and the hit
//! test that says which one it landed on.

use vstd::prelude::*;
use crate::chat::Chat;
use crate::chat_messages::{quote_width, id_position, layout_of, viewport_of, int_bubbles};
use crate::chat_open::{PICKER_COLS, PICKER_ROWS, PICKER_CELL, PICKER_PAD};
use crate::chat_flow::unread_sum;
use crate::chat_dialogs::forward_order;
use crate::chat_lists::{overflow, calls_layout, contacts_layout, starred_indices, CALLS_ROW_H, CALLS_VIEW_TOP, NEW_CHAT_ROW_H, STARRED_ROW_H};
use crate::canvas::{Canvas, in_rect, column, line, spot, before, round_rect_pixel, lemma_grid};
use crate::font::text_drawn;
use crate::qr::Qr;
use crate::items::{Message, Tab, CallPhase, CallsItem, ContactsItem, block_of};
use crate::font::{Font, MEDIUM, MEASURE_MAX, PIECE_MAX, text_width, text_pixels, div_toward_zero, emoji_count, measure, measure_exact, lines};
use crate::layout::{RAIL_W, HEADER_H, INPUT_H, ROW_H, LIST_TOP, BUBBLE_PAD_X, QUOTE_H, BODY, META, can_measure, panel_width, sidebar_width, shape_of,
    bubble_shape, wrapped, max};
use crate::text::{decimal, decimal_text, trim_start, slice_chars};
use crate::screen::message_wf;

verus! {

/// Width of the contact's panel over the right edge of the conversation.
pub const INFO_W: i32 = 360;
/// Height of the rows of the contact's panel, and where the first one starts.
pub const INFO_ROW_H: i32 = 56;
pub const INFO_ROWS_TOP: i32 = 344;
/// Room between a bubble and the edge of the conversation.
pub const BUBBLE_MARGIN: i32 = 28;
/// Width of the dropdown of the conversation header.
pub const CONVERSATION_MENU_W: i32 = 228;

/// What a click on the find bar hit.
#[derive(Clone, Copy, PartialEq, Eq, Structural, Debug)]
pub enum FindHit {
    Box(i32),
    Up,
    Down,
    Close,
}

/// What a click on the chat screen hit.
#[derive(Clone, Copy, PartialEq, Eq, Structural, Debug)]
pub enum Hit {
    Row(usize),
    Chip(usize),
    SearchBox(i32),
    MessageBox(i32),
    Send,
    EmojiButton,
    Emoji(usize),
    EmojiPanel,
    Conversation,
    Tab(Tab),
    NewChat,
    Menu,
    OpenDialpad,
    Key(char),
    Answer,
    Decline,
    Mute,
    HangUp,
    Call(usize),
    Back,
    Contact(usize),
    SelfChat,
    NumberChat,
    Starred(usize),
    FindOpen,
    ChatMenu,
    HeaderInfo,
    InfoClose,
    InfoRow(usize),
    InfoPanel,
    Find(FindHit),
    ScrollBottom,
    ReplyClose,
    Reaction(usize),
    ReactionMore,
    HoverButton(usize),
    Quote(usize),
    MenuReply,
    MenuCopy,
    MenuForward,
    MenuStar,
    MenuEdit,
    MenuDelete,
    ForwardTo(usize),
    ForwardOutside,
    Nothing,
}

/// Where the sidebar ends in a window `window_w` wide.
pub open spec fn side_of(window_w: int) -> int {
    RAIL_W + panel_width(window_w)
}

/// Whether (`x`, `y`) lies in the rectangle (left, top, width, height).
pub open spec fn inside(r: (int, int, int, int), x: int, y: int) -> bool {
    r.0 <= x < r.0 + r.2 && r.1 <= y < r.1 + r.3
}

/// A rectangle's numbers as integers.
pub open spec fn wide(r: (i32, i32, i32, i32)) -> (int, int, int, int) {
    (r.0 as int, r.1 as int, r.2 as int, r.3 as int)
}

/// The search pill under the header of a sidebar `side` wide: (x, y, width, height).
pub open spec fn search_rect(side: int) -> (int, int, int, int) {
    (RAIL_W + 21, HEADER_H + 2, side - RAIL_W - 40, 40)
}

/// The emoji picker of a window `window_h` tall whose sidebar is `side` wide: eight columns and six
/// rows of cells, with padding.
pub open spec fn picker_area(side: int, window_h: int) -> (int, int, int, int) {
    (side + 60, window_h - INPUT_H - 220 - 6, 288, 220)
}

/// The search pill under the sidebar's header: (x, y, width, height).
pub fn search_box(sidebar_w: i32) -> (rect: (i32, i32, i32, i32))
    requires
        -0x1000_0000 <= sidebar_w <= 0x1000_0000,
    ensures
        wide(rect) == search_rect(sidebar_w as int),
{
    (RAIL_W + 21, HEADER_H + 2, sidebar_w - RAIL_W - 40, 40)
}

/// The pill of the footer: its left edge and width.
pub fn message_box(sidebar_w: i32, window_w: i32) -> (range: (i32, i32))
    requires
        -0x1000_0000 <= sidebar_w <= 0x1000_0000,
        -0x1000_0000 <= window_w <= 0x1000_0000,
    ensures
        (range.0 as int, range.1 as int) == (sidebar_w + 12, window_w - sidebar_w - 24),
{
    (sidebar_w + 12, window_w - sidebar_w - 24)
}

/// The emoji picker over the footer: (x, y, width, height).
pub fn picker_rect(sidebar_w: i32, window_h: i32) -> (rect: (i32, i32, i32, i32))
    requires
        -0x1000_0000 <= sidebar_w <= 0x1000_0000,
        -0x1000_0000 <= window_h <= 0x1000_0000,
    ensures
        wide(rect) == picker_area(sidebar_w as int, window_h as int),
{
    let (w, h) = ((PICKER_COLS as i32) * PICKER_CELL + 2 * PICKER_PAD, (PICKER_ROWS as i32) * PICKER_CELL + 2 * PICKER_PAD);
    (sidebar_w + 60, window_h - INPUT_H - h - 6, w, h)
}

/// Whether (`x`, `y`) is on the emoji picker of a window `window_w` by `window_h`.
pub fn in_picker(x: i32, y: i32, window_w: i32, window_h: i32) -> (on: bool)
    requires
        0 <= window_w <= 0x100_0000,
        0 <= window_h <= 0x100_0000,
    ensures
        on == inside(picker_area(side_of(window_w as int), window_h as int), x as int, y as int),
{
    let (px, py, w, h) = picker_rect(sidebar_width(window_w), window_h);
    x >= px && (x as i64) < (px as i64) + (w as i64) && y >= py && (y as i64) < (py as i64) + (h as i64)
}

/// The window row of the centre of each rail button: chats, calls, status, channels.
pub open spec fn rail_center(tab: Tab) -> int {
    match tab {
        Tab::Chats => 30,
        Tab::Calls => 74,
        Tab::Status => 122,
        Tab::Channels => 166,
        Tab::Settings => 0,
    }
}

pub open spec fn near(a: int, b: int, reach: int) -> bool {
    -reach < a - b < reach
}

/// The rail button at height `y` of a window `window_h` tall: the settings button at the bottom
/// first, then the four tabs from the top.
pub open spec fn tab_under(y: int, window_h: int) -> Option<Tab> {
    if near(y, window_h - 30, 20) {
        Some(Tab::Settings)
    } else if near(y, 30, 20) {
        Some(Tab::Chats)
    } else if near(y, 74, 20) {
        Some(Tab::Calls)
    } else if near(y, 122, 20) {
        Some(Tab::Status)
    } else if near(y, 166, 20) {
        Some(Tab::Channels)
    } else {
        None
    }
}

/// The rail tab under a click at height `y` in a window `window_h` tall.
pub fn tab_at(y: i32, window_h: i32) -> (tab: Option<Tab>)
    ensures
        tab == tab_under(y as int, window_h as int),
{
    let (yy, hh) = (y as i64, window_h as i64);
    let d = yy - (hh - 30);
    if -20 < d && d < 20 {
        return Some(Tab::Settings);
    }
    let tabs: [(Tab, i64); 4] = [(Tab::Chats, 30), (Tab::Calls, 74), (Tab::Status, 122), (Tab::Channels, 166)];
    let mut k: usize = 0;
    while k < 4
        invariant
            0 <= k <= 4,
            yy == y,
            hh == window_h,
            tabs@ == seq![(Tab::Chats, 30i64), (Tab::Calls, 74i64), (Tab::Status, 122i64), (Tab::Channels, 166i64)],
            !near(y as int, window_h - 30, 20),
            forall|j: int| 0 <= j < k ==> !near(y as int, tabs@[j].1 as int, 20),
        decreases 4 - k,
    {
        let (tab, cy) = tabs[k];
        if -20 < yy - cy && yy - cy < 20 {
            assert(k == 0 || k == 1 || k == 2 || k == 3);
            assert(!near(y as int, 30, 20) || k == 0);
            return Some(tab);
        }
        k = k + 1;
    }
    None
}

/// The entry of a dropdown whose entries start at height 61, 36 apart, that a click at height
/// `y` is on, counting only the first `count`.
pub open spec fn menu_slot(y: int, count: int) -> Option<usize> {
    if y < 61 || (y - 61) / 36 >= count { None } else { Some(((y - 61) / 36) as usize) }
}

/// The entry of the conversation menu a click at (`x`, `y`) is on.
pub fn conversation_menu_entry_at(x: i32, y: i32, window_w: i32) -> (entry: Option<usize>)
    ensures
        entry == (if x < window_w - CONVERSATION_MENU_W - 12 || x >= window_w - 12 { None } else { menu_slot(y as int, 5) }),
{
    let left = window_w as i64 - CONVERSATION_MENU_W as i64 - 12;
    if (x as i64) < left || (x as i64) >= left + CONVERSATION_MENU_W as i64 || y < 61 {
        return None;
    }
    let slot = (y - 61) / 36;
    if slot < 5 { Some(slot as usize) } else { None }
}

/// Whether the contact's panel is showing and a point `x` across lies under it.
pub fn over_info(chat: &Chat, x: i32, window_w: i32) -> (over: bool)
    ensures
        over == (chat.screen.info_open && chat.screen.open && chat.screen.tab == Tab::Chats && x >= window_w - INFO_W),
{
    chat.screen.info_open && chat.screen.open && chat.screen.tab == Tab::Chats && (x as i64) >= (window_w as i64) - (INFO_W as i64)
}

/// Which row of the contact's panel a click at height `y` is on.
pub open spec fn info_row_under(y: int) -> Option<usize> {
    if y >= INFO_ROWS_TOP && (y - INFO_ROWS_TOP) / (INFO_ROW_H as int) < 4 { Some(((y - INFO_ROWS_TOP) / (INFO_ROW_H as int)) as usize) } else { None }
}

fn info_row_at(y: i32) -> (row: Option<usize>)
    ensures
        row == info_row_under(y as int),
{
    if y >= INFO_ROWS_TOP && (y - INFO_ROWS_TOP) / INFO_ROW_H < 4 { Some(((y - INFO_ROWS_TOP) / INFO_ROW_H) as usize) } else { None }
}

// ---- the bubbles of the open conversation

/// The bubble of message `m` in a window `window_w` wide: its left edge, width and height.
pub open spec fn bubble_box(chat: &Chat, m: Message, window_w: int) -> (int, int, int) {
    let limit = chat.scroll.text_limit as int;
    let shape = shape_of(&chat.font, m.text@, m.time@, m.outgoing, m.starred, limit,
        quote_width(&chat.font, &chat.store, limit, m), block_of(m.kind, m.media_w as int, m.media_h as int));
    let width = shape.0 + 2 * BUBBLE_PAD_X;
    let left = if m.outgoing { window_w - BUBBLE_MARGIN - 4 - width } else { side_of(window_w) + BUBBLE_MARGIN };
    (left, width, shape.1)
}

/// The top edge in the window of a bubble placed at `at` in the scrolling content.
pub open spec fn bubble_top(chat: &Chat, at: int) -> int {
    HEADER_H - chat.scroll.conversation + at
}

/// Whether (`x`, `y`) lies on the bubble `b` (message number, top in the content, run start).
pub open spec fn on_bubble(chat: &Chat, b: (int, int, bool), x: int, y: int, window_w: int) -> bool {
    let (left, width, height) = bubble_box(chat, chat.store.messages@[b.0], window_w);
    inside((left, bubble_top(chat, b.1), width, height), x, y)
}

/// The last of `bubbles` that (`x`, `y`) lies on, by its message number.
pub open spec fn bubble_under(chat: &Chat, bubbles: Seq<(int, int, bool)>, x: int, y: int, window_w: int) -> Option<usize>
    decreases bubbles.len(),
{
    if bubbles.len() == 0 {
        None
    } else if on_bubble(chat, bubbles.last(), x, y, window_w) {
        Some(bubbles.last().0 as usize)
    } else {
        bubble_under(chat, bubbles.drop_last(), x, y, window_w)
    }
}

/// Whether (`x`, `y`) lies on the quote block at the top of bubble `b`, which quotes a message we have.
pub open spec fn on_quote(chat: &Chat, b: (int, int, bool), x: int, y: int, window_w: int) -> bool {
    let m = chat.store.messages@[b.0];
    let (left, width, height) = bubble_box(chat, m, window_w);
    &&& id_position(chat.store.messages@, m.chat, m.reply@) is Some
    &&& inside((left + 6, bubble_top(chat, b.1) + 6, width - 12, QUOTE_H - 6), x, y)
}

/// The message quoted by the last of `bubbles` whose quote block (`x`, `y`) lies on.
pub open spec fn quote_under(chat: &Chat, bubbles: Seq<(int, int, bool)>, x: int, y: int, window_w: int) -> Option<usize>
    decreases bubbles.len(),
{
    if bubbles.len() == 0 {
        None
    } else if on_quote(chat, bubbles.last(), x, y, window_w) {
        let m = chat.store.messages@[bubbles.last().0];
        Some(id_position(chat.store.messages@, m.chat, m.reply@).unwrap() as usize)
    } else {
        quote_under(chat, bubbles.drop_last(), x, y, window_w)
    }
}

/// The centre of the round reaction button of the last of `bubbles` that shows message `index`:
/// beside the bubble, on the side away from the window's edge.
pub open spec fn button_center(chat: &Chat, bubbles: Seq<(int, int, bool)>, index: int, window_w: int) -> Option<(int, int)>
    decreases bubbles.len(),
{
    if bubbles.len() == 0 {
        None
    } else if bubbles.last().0 == index {
        let m = chat.store.messages@[index];
        let (left, width, height) = bubble_box(chat, m, window_w);
        Some((if m.outgoing { left - 24 } else { left + width + 24 }, bubble_top(chat, bubbles.last().1) + 22))
    } else {
        button_center(chat, bubbles.drop_last(), index, window_w)
    }
}

/// Each bubble of the open conversation shows a message we have.
pub proof fn lemma_bubbles(chat: &Chat)
    ensures
        forall|j: int| 0 <= j < layout_of(chat).0.len() ==> 0 <= (#[trigger] layout_of(chat).0[j]).0 < chat.store.messages@.len(),
{
    crate::chat_messages::lemma_placed_rows(chat.store.messages@, chat.screen.selected as int, 0, None, None,
        (crate::chat_messages::CONVERSATION_TOP - crate::chat_messages::DAY_CHIP_ROW) as int);
}

/// What the view needs of a chat: a font that measures and a window width the sidebar handles.
pub open spec fn viewable(chat: &Chat, window_w: int) -> bool {
    chat.wf() && 0 <= window_w <= 0x100_0000
}

impl Chat {
    /// The bubble of message `index`: left edge, width and height.
    fn bubble_box_of(&self, index: usize, window_w: i32) -> (b: (i32, i32, i32))
        requires
            viewable(self, window_w as int),
            index < self.store.messages@.len(),
        ensures
            (b.0 as int, b.1 as int, b.2 as int) == bubble_box(self, self.store.messages@[index as int], window_w as int),
            -0x2000_0000 <= b.0 <= 0x2000_0000,
            -0x2000_0000 <= b.1 <= 0x2000_0000,
            0 < b.2 <= 0x40000,
    {
        let message = &self.store.messages[index];
        assert(message_wf(self.store.messages@[index as int]));
        let quote = self.quote_width_of(message);
        let block = message.block();
        let shape = bubble_shape(&self.font, message.text.as_str(), message.time.as_str(), message.outgoing, message.starred,
            self.scroll.text_limit, quote, block);
        let width = shape.width + 2 * BUBBLE_PAD_X;
        let left = if message.outgoing { window_w - BUBBLE_MARGIN - 4 - width } else { sidebar_width(window_w) + BUBBLE_MARGIN };
        (left, width, shape.height)
    }
}

/// Which message the point (`x`, `y`) is on, by its number among all the messages.
pub fn message_at(chat: &Chat, x: i32, y: i32, window_w: i32) -> (index: Option<usize>)
    requires
        viewable(chat, window_w as int),
    ensures
        index == bubble_under(chat, layout_of(chat).0, x as int, y as int, window_w as int),
{
    let (rows, _) = chat.place();
    let ghost bubbles = layout_of(chat).0;
    let top: i64 = HEADER_H as i64 - chat.scroll.conversation as i64;
    let mut found: Option<usize> = None;
    let mut k: usize = 0;
    proof {
        assert(bubbles.take(0) =~= Seq::<(int, int, bool)>::empty());
    }
    while k < rows.len()
        invariant
            viewable(chat, window_w as int),
            0 <= k <= rows@.len(),
            int_bubbles(rows@) == bubbles,
            bubbles == layout_of(chat).0,
            top == HEADER_H - chat.scroll.conversation,
            found == bubble_under(chat, bubbles.take(k as int), x as int, y as int, window_w as int),
        decreases rows@.len() - k,
    {
        let (index, at, _) = rows[k];
        proof {
            lemma_bubbles(chat);
            assert(int_bubbles(rows@)[k as int] == bubbles[k as int]);
        }
        let (left, width, height) = chat.bubble_box_of(index, window_w);
        let from = top + at as i64;
        if (y as i64) >= from && (y as i64) < from + height as i64 && (x as i64) >= left as i64 && (x as i64) < left as i64 + width as i64 {
            found = Some(index);
        }
        proof {
            assert(bubbles.take(k + 1).drop_last() =~= bubbles.take(k as int));
            assert(bubbles.take(k + 1).last() == bubbles[k as int]);
        }
        k = k + 1;
    }
    proof {
        assert(bubbles.take(k as int) =~= bubbles);
    }
    found
}

/// Click on a quote block: the message it quotes, by its number among all the messages.
pub fn quote_at(chat: &Chat, x: i32, y: i32, window_w: i32) -> (index: Option<usize>)
    requires
        viewable(chat, window_w as int),
    ensures
        index == quote_under(chat, layout_of(chat).0, x as int, y as int, window_w as int),
{
    let (rows, _) = chat.place();
    let ghost bubbles = layout_of(chat).0;
    let top: i64 = HEADER_H as i64 - chat.scroll.conversation as i64;
    let mut found: Option<usize> = None;
    let mut k: usize = 0;
    proof {
        assert(bubbles.take(0) =~= Seq::<(int, int, bool)>::empty());
    }
    while k < rows.len()
        invariant
            viewable(chat, window_w as int),
            0 <= k <= rows@.len(),
            int_bubbles(rows@) == bubbles,
            bubbles == layout_of(chat).0,
            top == HEADER_H - chat.scroll.conversation,
            found == quote_under(chat, bubbles.take(k as int), x as int, y as int, window_w as int),
        decreases rows@.len() - k,
    {
        let (index, at, _) = rows[k];
        proof {
            lemma_bubbles(chat);
            assert(int_bubbles(rows@)[k as int] == bubbles[k as int]);
        }
        let message = &chat.store.messages[index];
        let quoted = chat.message_with_id(message.chat, message.reply.as_str());
        if let Some(q) = quoted {
            let (left, width, _) = chat.bubble_box_of(index, window_w);
            let (bx, by) = (left as i64 + 6, top + at as i64 + 6);
            if (x as i64) >= bx && (x as i64) < bx + width as i64 - 12 && (y as i64) >= by && (y as i64) < by + QUOTE_H as i64 - 6 {
                found = Some(q);
            }
        }
        proof {
            assert(bubbles.take(k + 1).drop_last() =~= bubbles.take(k as int));
            assert(bubbles.take(k + 1).last() == bubbles[k as int]);
        }
        k = k + 1;
    }
    proof {
        assert(bubbles.take(k as int) =~= bubbles);
    }
    found
}

/// Where the round reaction button of message `index` sits.
fn hover_button_center(chat: &Chat, index: usize, window_w: i32) -> (center: Option<(i32, i32)>)
    requires
        viewable(chat, window_w as int),
    ensures
        match button_center(chat, layout_of(chat).0, index as int, window_w as int) {
            Some(c) => center matches Some(p) && p.0 as int == c.0 && p.1 as int == c.1,
            None => center is None,
        },
        center matches Some(p) ==> -0x5000_0000 <= p.0 <= 0x5000_0000 && -0x5000_0000 <= p.1 <= 0x5000_0000,
{
    let (rows, _) = chat.place();
    let ghost bubbles = layout_of(chat).0;
    let top: i32 = HEADER_H - chat.scroll.conversation;
    let mut found: Option<(i32, i32)> = None;
    let mut k: usize = 0;
    proof {
        assert(bubbles.take(0) =~= Seq::<(int, int, bool)>::empty());
    }
    while k < rows.len()
        invariant
            viewable(chat, window_w as int),
            0 <= k <= rows@.len(),
            int_bubbles(rows@) == bubbles,
            bubbles == layout_of(chat).0,
            top == HEADER_H - chat.scroll.conversation,
            forall|j: int| 0 <= j < rows@.len() ==> 0 <= #[trigger] rows@[j].1 <= 0x200_0000,
            match button_center(chat, bubbles.take(k as int), index as int, window_w as int) {
                Some(c) => found matches Some(p) && p.0 as int == c.0 && p.1 as int == c.1,
                None => found is None,
            },
            found matches Some(p) ==> -0x5000_0000 <= p.0 <= 0x5000_0000 && -0x5000_0000 <= p.1 <= 0x5000_0000,
        decreases rows@.len() - k,
    {
        let (at_index, at, _) = rows[k];
        proof {
            lemma_bubbles(chat);
            assert(int_bubbles(rows@)[k as int] == bubbles[k as int]);
        }
        if at_index == index {
            let outgoing = chat.store.messages[index].outgoing;
            let (left, width, _) = chat.bubble_box_of(index, window_w);
            found = Some((if outgoing { left - 24 } else { left + width + 24 }, top + at + 22));
        }
        proof {
            assert(bubbles.take(k + 1).drop_last() =~= bubbles.take(k as int));
            assert(bubbles.take(k + 1).last() == bubbles[k as int]);
        }
        k = k + 1;
    }
    proof {
        assert(bubbles.take(k as int) =~= bubbles);
    }
    found
}

/// The message the pointer is on, or whose reaction button it is on.
pub fn hover_at(chat: &Chat, x: i32, y: i32, window_w: i32) -> (index: Option<usize>)
    requires
        viewable(chat, window_w as int),
    ensures
        index == (match chat.marks.hover {
            Some(current) => match button_center(chat, layout_of(chat).0, current as int, window_w as int) {
                Some(c) => if near(x as int, c.0, 19) && near(y as int, c.1, 19) {
                    Some(current)
                } else {
                    bubble_under(chat, layout_of(chat).0, x as int, y as int, window_w as int)
                },
                None => bubble_under(chat, layout_of(chat).0, x as int, y as int, window_w as int),
            },
            None => bubble_under(chat, layout_of(chat).0, x as int, y as int, window_w as int),
        }),
{
    if let Some(current) = chat.marks.hover {
        if let Some((cx, cy)) = hover_button_center(chat, current, window_w) {
            let (dx, dy) = (x as i64 - cx as i64, y as i64 - cy as i64);
            if -19 < dx && dx < 19 && -19 < dy && dy < 19 {
                return Some(current);
            }
        }
    }
    message_at(chat, x, y, window_w)
}

/// Where the pop-up of the reaction button of message `index` opens: over the button, or at
/// (0, 0) when the message is not in the open conversation.
pub fn hover_button_menu_at(chat: &Chat, index: usize, window_w: i32) -> (at: (i32, i32))
    requires
        viewable(chat, window_w as int),
    ensures
        (at.0 as int, at.1 as int) == (match button_center(chat, layout_of(chat).0, index as int, window_w as int) {
            Some(c) => (c.0 - 30, c.1 + 18),
            None => (0, 0),
        }),
{
    match hover_button_center(chat, index, window_w) {
        Some((cx, cy)) => (cx - 30, cy + 18),
        None => (0, 0),
    }
}

/// Whether (`x`, `y`) lies in the disc of radius `r` around `c`.
pub open spec fn in_disc(x: int, y: int, c: (int, int), r: int) -> bool {
    (x - c.0) * (x - c.0) + (y - c.1) * (y - c.1) <= r * r
}

/// Whether (`x`, `y`) lies within `r` of (`cx`, `cy`), in exact arithmetic.
fn within(x: i32, y: i32, cx: i32, cy: i32, r: i32) -> (yes: bool)
    requires
        0 <= r <= 100,
    ensures
        yes == in_disc(x as int, y as int, (cx as int, cy as int), r as int),
{
    let (dx, dy) = (x as i64 - cx as i64, y as i64 - cy as i64);
    if dx < -100 || dx > 100 || dy < -100 || dy > 100 {
        assert(r * r < (x - cx) * (x - cx) + (y - cy) * (y - cy)) by (nonlinear_arith)
            requires
                0 <= r <= 100,
                dx == x - cx,
                dy == y - cy,
                dx < -100 || dx > 100 || dy < -100 || dy > 100,
        ;
        return false;
    }
    assert(0 <= dx * dx <= 10000 && 0 <= dy * dy <= 10000 && 0 <= (r as i64) * (r as i64) <= 10000) by (nonlinear_arith)
        requires
            -100 <= dx <= 100,
            -100 <= dy <= 100,
            0 <= r <= 100,
    ;
    dx * dx + dy * dy <= (r as i64) * (r as i64)
}

/// The message whose reaction button (a disc of radius 16) a click at (`x`, `y`) is on.
pub open spec fn hover_hit(chat: &Chat, x: int, y: int, window_w: int) -> Option<usize> {
    match chat.marks.hover {
        Some(current) => match button_center(chat, layout_of(chat).0, current as int, window_w) {
            Some(c) => if in_disc(x, y, c, 16) { Some(current) } else { None },
            None => None,
        },
        None => None,
    }
}

/// A click on the reaction button of the message the pointer is over.
fn hover_button_hit(chat: &Chat, x: i32, y: i32, window_w: i32) -> (index: Option<usize>)
    requires
        viewable(chat, window_w as int),
    ensures
        index == hover_hit(chat, x as int, y as int, window_w as int),
{
    let index = match chat.marks.hover {
        Some(index) => index,
        None => return None,
    };
    match hover_button_center(chat, index, window_w) {
        Some((cx, cy)) => if within(x, y, cx, cy, 16) { Some(index) } else { None },
        None => None,
    }
}

// ---- what is measured

/// The style of the filter chips and of the dialog buttons: 14 px, medium weight.
pub const CHIP: u16 = 14 | MEDIUM;
/// The style of menu entries and of the search box text.
pub const PREVIEW: u16 = 14;
/// The style of the text in the footer's box.
pub const INPUT_TEXT: u16 = 15;

/// What the chat screen's hit test measures with: the chat's font, with the chip style too.
pub open spec fn can_lay_out(font: &Font) -> bool {
    can_measure(font) && font.has_style(CHIP)
}

/// Width of the dropdown of the three-dots button: its widest label and room around it.
pub open spec fn chats_menu_width(font: &Font) -> int {
    let widest = max(max(max(max(max(max(text_width(font, "Novo grupo"@, PREVIEW), text_width(font, "Arquivadas"@, PREVIEW)),
        text_width(font, "Mensagens favoritas"@, PREVIEW)), text_width(font, "Selecionar conversas"@, PREVIEW)),
        text_width(font, "Marcar todas como lidas"@, PREVIEW)), text_width(font, "Bloqueio do app"@, PREVIEW)),
        text_width(font, "Desconectar"@, PREVIEW));
    div_toward_zero(widest * 2 + 64, 128) + 61
}

/// Width of `label` in 1/64 px, for a label of the program's own of at most 32 characters.
fn label_width(font: &Font, label: &str, style: u16) -> (width: i32)
    requires
        font.wf(),
        font.has_style(style),
        label@.len() <= 32,
    ensures
        width == text_width(font, label@, style),
        -32 * PIECE_MAX <= width <= 32 * PIECE_MAX,
{
    measure_exact(font, label, style)
}

fn chats_menu_width_of(font: &Font) -> (width: i32)
    requires
        can_measure(font),
    ensures
        width == chats_menu_width(font),
        -0x20_0000 <= width <= 0x20_0000,
{
    proof {
        reveal_strlit("Novo grupo");
        reveal_strlit("Arquivadas");
        reveal_strlit("Mensagens favoritas");
        reveal_strlit("Selecionar conversas");
        reveal_strlit("Marcar todas como lidas");
        reveal_strlit("Bloqueio do app");
        reveal_strlit("Desconectar");
    }
    let mut widest = label_width(font, "Novo grupo", PREVIEW);
    let w = label_width(font, "Arquivadas", PREVIEW);
    if w > widest { widest = w; }
    let w = label_width(font, "Mensagens favoritas", PREVIEW);
    if w > widest { widest = w; }
    let w = label_width(font, "Selecionar conversas", PREVIEW);
    if w > widest { widest = w; }
    let w = label_width(font, "Marcar todas como lidas", PREVIEW);
    if w > widest { widest = w; }
    let w = label_width(font, "Bloqueio do app", PREVIEW);
    if w > widest { widest = w; }
    let w = label_width(font, "Desconectar", PREVIEW);
    if w > widest { widest = w; }
    let total = widest * 2 + 64;
    (if total >= 0 { total / 128 } else { -((-total) / 128) }) + 61
}

/// The entry of the chats menu (by position) a click at (`x`, `y`) is on, in a window whose sidebar
/// is `side` wide; the entries after the divider are not clickable.
pub fn chats_menu_entry_at(font: &Font, x: i32, y: i32, side: i32) -> (entry: Option<usize>)
    requires
        can_measure(font),
    ensures
        entry == (if x < side - 107 || x >= side - 107 + chats_menu_width(font) { None } else { menu_slot(y as int, 5) }),
{
    let left = side as i64 - 107;
    if (x as i64) < left || (x as i64) >= left + chats_menu_width_of(font) as i64 || y < 61 {
        return None;
    }
    let slot = (y - 61) / 36;
    if slot <= 4 { Some(slot as usize) } else { None }
}

/// A number below a thousand takes at most three digits.
proof fn lemma_short_decimal(n: nat)
    requires
        n <= 999,
    ensures
        decimal(n).len() <= 3,
{
    reveal_with_fuel(decimal, 3);
    if n >= 10 {
        if n / 10 >= 10 {
            assert(n / 10 / 10 < 10);
        }
    }
}

/// The unread count as the chips and the rail show it: at most 999.
pub open spec fn count_text(n: nat) -> Seq<char> {
    decimal(if n > 999 { 999 } else { n })
}

/// The filter chips "Tudo" and "Não lidas", the second carrying the unread count when there is one.
pub open spec fn chip_areas(font: &Font, unread: nat) -> ((int, int, int, int), (int, int, int, int)) {
    let first_w = text_pixels(font, "Tudo"@, CHIP) + 32;
    let count_w = if unread > 0 { 6 + text_pixels(font, count_text(unread), META) } else { 0 };
    let second_w = text_pixels(font, "Não lidas"@, CHIP) + count_w + 32;
    ((RAIL_W + 21, 116, first_w, 32), (RAIL_W + 21 + first_w + 8, 116, second_w, 32))
}

/// The filter chips "Tudo" and "Não lidas", the second one carrying the unread count.
pub fn chip_rects(font: &Font, unread: usize) -> (rects: [(i32, i32, i32, i32); 2])
    requires
        can_lay_out(font),
    ensures
        (wide(rects@[0]), wide(rects@[1])) == chip_areas(font, unread as nat),
        -0x10_0000 <= rects@[0].2 <= 0x10_0000,
        -0x10_0000 <= rects@[1].2 <= 0x10_0000,
{
    proof {
        reveal_strlit("Tudo");
        reveal_strlit("Não lidas");
    }
    let first_w = measure(font, "Tudo", CHIP) + 32;
    let shown: u64 = if unread > 999 { 999 } else { unread as u64 };
    let digits = decimal_text(shown);
    proof {
        lemma_short_decimal(shown as nat);
    }
    let count_w = if unread > 0 { 6 + measure(font, digits.as_str(), META) } else { 0 };
    let second_w = measure(font, "Não lidas", CHIP) + count_w + 32;
    let x = RAIL_W + 21;
    [(x, 116, first_w, 32), (x + first_w + 8, 116, second_w, 32)]
}

// ---- the message box, calls and the keypad

/// The label of the message box's main button.
pub open spec fn main_label(chat: &Chat) -> Seq<char> {
    if chat.dialog.confirm_delete is Some || chat.dialog.confirm_remove is Some {
        "Apagar"@
    } else if chat.dialog.confirm_clear is Some {
        "Limpar"@
    } else {
        "OK"@
    }
}

/// The message box's main button and, when it asks, its Cancel button: the box is 500 px wide and
/// as tall as its body (at least three lines of it) needs.
pub open spec fn dialog_buttons(chat: &Chat, window_w: int, window_h: int) -> ((int, int, int, int), Option<(int, int, int, int)>) {
    let count = wrapped(&chat.font, PREVIEW, 452, trim_start(chat.dialog.body@.text)).len() as int;
    let height = 200 + 20 * (if count > 3 { count } else { 3 });
    let (x, y) = (div_toward_zero(window_w - 500, 2), div_toward_zero(window_h - height, 2));
    let main_w = text_pixels(&chat.font, main_label(chat), CHIP) + 48;
    let top = y + height - 57;
    let main = (x + 471 - main_w, top, main_w, 36);
    let cancel_w = text_pixels(&chat.font, "Cancelar"@, CHIP) + 48;
    (main, if chat.dialog.asks() { Some((main.0 - 12 - cancel_w, top, cancel_w, 36)) } else { None })
}

/// Which button of the message box (`x`, `y`) is on: the main one, or Cancel.
pub open spec fn dialog_button(chat: &Chat, x: int, y: int, window_w: int, window_h: int) -> Option<bool> {
    let (main, cancel) = dialog_buttons(chat, window_w, window_h);
    if inside(main, x, y) {
        Some(true)
    } else if cancel matches Some(c) && inside(c, x, y) {
        Some(false)
    } else {
        None
    }
}

/// Width in pixels of one of the program's own labels in `style`.
fn label_pixels(font: &Font, label: &str, style: u16) -> (width: i32)
    requires
        font.wf(),
        font.has_style(style),
        label@.len() <= 32,
    ensures
        width == text_pixels(font, label@, style),
        -0x3_0000 <= width <= 0x3_0000,
{
    measure(font, label, style)
}

fn half_toward_zero(v: i64) -> (h: i64)
    requires
        -0x1000_0000_0000 <= v <= 0x1000_0000_0000,
    ensures
        h == div_toward_zero(v as int, 2),
{
    if v >= 0 { v / 2 } else { -((-v) / 2) }
}

/// Which button of the message box a click is on: `Some(true)` the main one, `Some(false)` Cancel.
pub fn dialog_hit(x: i32, y: i32, window_w: i32, window_h: i32, chat: &Chat) -> (hit: Option<bool>)
    requires
        chat.wf(),
        can_lay_out(&chat.font),
    ensures
        hit == dialog_button(chat, x as int, y as int, window_w as int, window_h as int),
{
    let body = chat.dialog_body();
    proof {
        chat.dialog.body.lemma_wf();
        reveal_strlit("Apagar");
        reveal_strlit("Limpar");
        reveal_strlit("OK");
        reveal_strlit("Cancelar");
    }
    let count = crate::layout::line_count(&chat.font, body.as_str(), PREVIEW, 452);
    let lines: i64 = if count > 3 { count as i64 } else { 3 };
    let height: i64 = 200 + 20 * lines;
    let x0 = half_toward_zero(window_w as i64 - 500);
    let y0 = half_toward_zero(window_h as i64 - height);
    let label = if chat.dialog.confirm_delete.is_some() || chat.dialog.confirm_remove.is_some() {
        "Apagar"
    } else if chat.dialog.confirm_clear.is_some() {
        "Limpar"
    } else {
        "OK"
    };
    let main_w = label_pixels(&chat.font, label, CHIP) as i64 + 48;
    let top = y0 + height - 57;
    let main_x = x0 + 471 - main_w;
    let (x, y) = (x as i64, y as i64);
    if x >= main_x && x < main_x + main_w && y >= top && y < top + 36 {
        return Some(true);
    }
    if chat.confirming() {
        let cancel_w = label_pixels(&chat.font, "Cancelar", CHIP) as i64 + 48;
        let cancel_x = main_x - 12 - cancel_w;
        if x >= cancel_x && x < cancel_x + cancel_w && y >= top && y < top + 36 {
            return Some(false);
        }
    }
    None
}

/// The decline and answer buttons of the card of a call coming in.
pub open spec fn incoming_areas(font: &Font, window_w: int, window_h: int) -> ((int, int, int, int), (int, int, int, int)) {
    let (x, y) = (div_toward_zero(window_w - 500, 2), div_toward_zero(window_h - 168, 2));
    let (decline_w, answer_w) = (text_pixels(font, "Recusar"@, CHIP) + 48, text_pixels(font, "Atender"@, CHIP) + 48);
    let right = x + 471;
    ((right - answer_w - 12 - decline_w, y + 111, decline_w, 36), (right - answer_w, y + 111, answer_w, 36))
}

/// Radius of the two round buttons of the call screen.
pub const CALL_CONTROL_R: i32 = 28;

/// Centres of the mute and hang-up buttons of the call screen.
pub open spec fn call_buttons(window_w: int, window_h: int) -> ((int, int), (int, int)) {
    ((window_w / 2 - 44, window_h - 88), (window_w / 2 + 44, window_h - 88))
}

/// What a click hits while a call is coming in or going on; nothing when there is no call.
pub open spec fn call_hit(chat: &Chat, x: int, y: int, window_w: int, window_h: int) -> Option<Hit> {
    match chat.call.phase {
        CallPhase::Idle => None,
        CallPhase::Incoming => {
            let (decline, answer) = incoming_areas(&chat.font, window_w, window_h);
            Some(if inside(answer, x, y) { Hit::Answer } else if inside(decline, x, y) { Hit::Decline } else { Hit::Nothing })
        },
        CallPhase::Ended => Some(Hit::Nothing),
        _ => {
            let (mute, end) = call_buttons(window_w, window_h);
            Some(if in_disc(x, y, mute, CALL_CONTROL_R as int) {
                Hit::Mute
            } else if in_disc(x, y, end, CALL_CONTROL_R as int) {
                Hit::HangUp
            } else {
                Hit::Nothing
            })
        },
    }
}

fn call_hit_of(chat: &Chat, x: i32, y: i32, window_w: i32, window_h: i32) -> (hit: Option<Hit>)
    requires
        chat.wf(),
        can_lay_out(&chat.font),
        0 <= window_w <= 0x100_0000,
        0 <= window_h <= 0x100_0000,
    ensures
        hit == call_hit(chat, x as int, y as int, window_w as int, window_h as int),
{
    match chat.call.phase {
        CallPhase::Idle => None,
        CallPhase::Incoming => {
            proof {
                reveal_strlit("Recusar");
                reveal_strlit("Atender");
            }
            let x0 = half_toward_zero(window_w as i64 - 500);
            let y0 = half_toward_zero(window_h as i64 - 168);
            let decline_w = label_pixels(&chat.font, "Recusar", CHIP) as i64 + 48;
            let answer_w = label_pixels(&chat.font, "Atender", CHIP) as i64 + 48;
            let right = x0 + 471;
            let (x, y) = (x as i64, y as i64);
            let (top, bottom) = (y0 + 111, y0 + 111 + 36);
            if x >= right - answer_w && x < right && y >= top && y < bottom {
                Some(Hit::Answer)
            } else if x >= right - answer_w - 12 - decline_w && x < right - answer_w - 12 && y >= top && y < bottom {
                Some(Hit::Decline)
            } else {
                Some(Hit::Nothing)
            }
        },
        CallPhase::Ended => Some(Hit::Nothing),
        _ => {
            let cy = window_h - 88;
            if within(x, y, window_w / 2 - 44, cy, CALL_CONTROL_R) {
                Some(Hit::Mute)
            } else if within(x, y, window_w / 2 + 44, cy, CALL_CONTROL_R) {
                Some(Hit::HangUp)
            } else {
                Some(Hit::Nothing)
            }
        },
    }
}

/// The horizontal centre of the keypad button of the calls pane (the third of its three round
/// buttons, spread by the widths of their labels).
pub open spec fn keypad_button_x(font: &Font, side: int, window_w: int) -> int {
    let cx = (side + window_w) / 2 + 2;
    let w0 = text_width(font, "Iniciar ligação"@, META) + 1024;
    let w1 = text_width(font, "Novo link de ligação"@, META) + 1024;
    let w2 = text_width(font, "Ligar para um telefone"@, META) + 1024;
    let start = cx * 64 - div_toward_zero(w0 + w1 + w2 + 2048, 2);
    div_toward_zero(start + w0 + 1024 + w1 + 1024 + div_toward_zero(w2, 2) + 32, 64)
}

/// A click on the right side of the calls screen: only the keypad button does anything.
pub open spec fn pane_hit(font: &Font, x: int, y: int, side: int, window_w: int, window_h: int) -> Hit {
    let top = div_toward_zero(window_h - 316, 2) - 12;
    if in_disc(x, y, (keypad_button_x(font, side, window_w), top + 268), 24) { Hit::OpenDialpad } else { Hit::Nothing }
}

fn pane_hit_of(font: &Font, x: i32, y: i32, side: i32, window_w: i32, window_h: i32) -> (hit: Hit)
    requires
        can_measure(font),
        0 <= window_w <= 0x100_0000,
        0 <= window_h <= 0x100_0000,
        0 <= side <= 0x100_0000,
    ensures
        hit == pane_hit(font, x as int, y as int, side as int, window_w as int, window_h as int),
{
    proof {
        reveal_strlit("Iniciar ligação");
        reveal_strlit("Novo link de ligação");
        reveal_strlit("Ligar para um telefone");
    }
    let cx = ((side as i64) + (window_w as i64)) / 2 + 2;
    let w0 = label_width(font, "Iniciar ligação", META) as i64 + 1024;
    let w1 = label_width(font, "Novo link de ligação", META) as i64 + 1024;
    let w2 = label_width(font, "Ligar para um telefone", META) as i64 + 1024;
    let start = cx * 64 - half_toward_zero(w0 + w1 + w2 + 2048);
    let total = start + w0 + 1024 + w1 + 1024 + half_toward_zero(w2) + 32;
    let center = if total >= 0 { total / 64 } else { -((-total) / 64) };
    let top = half_toward_zero(window_h as i64 - 316) - 12;
    if within(x, y, center as i32, (top + 268) as i32, 24) { Hit::OpenDialpad } else { Hit::Nothing }
}

/// The character of keypad key number `k` (row by row, three to a row): the digits, `+`, `0`, and
/// backspace.
pub open spec fn key_char(k: int) -> char {
    if k == 9 {
        '+'
    } else if k == 10 {
        '0'
    } else if k == 11 {
        '\u{8}'
    } else {
        ((k + 0x31) as u32) as char
    }
}

/// The centre of keypad key `k` in a sidebar `side` wide.
pub open spec fn key_center(side: int, k: int) -> (int, int) {
    let pitch = (side - RAIL_W - 20) / 3;
    let (row, column) = (k / 3, k % 3);
    (RAIL_W + 11 + pitch * (2 * column + 1) / 2, if row == 0 { 222 } else if row == 1 { 306 } else if row == 2 { 390 } else { 492 })
}

/// The first keypad key from number `k` on that (`x`, `y`) is on.
pub open spec fn key_under(side: int, x: int, y: int, k: int) -> Option<char>
    decreases 12 - k,
{
    if k < 0 || k >= 12 {
        None
    } else if near(x, key_center(side, k).0, 45) && near(y, key_center(side, k).1, 36) {
        Some(key_char(k))
    } else {
        key_under(side, x, y, k + 1)
    }
}

/// The keypad key under (`x`, `y`): a digit, `+`, or `\u{8}` for backspace.
fn key_at(side: i32, x: i32, y: i32) -> (key: Option<char>)
    requires
        RAIL_W + 20 <= side <= 0x100_0000,
    ensures
        key == key_under(side as int, x as int, y as int, 0),
{
    let pitch = (side - RAIL_W - 20) / 3;
    let keys: [char; 12] = ['1', '2', '3', '4', '5', '6', '7', '8', '9', '+', '0', '\u{8}'];
    let rows: [i64; 4] = [222, 306, 390, 492];
    let mut k: usize = 0;
    while k < 12
        invariant
            0 <= k <= 12,
            RAIL_W + 20 <= side <= 0x100_0000,
            pitch == (side - RAIL_W - 20) / 3,
            keys@ == seq!['1', '2', '3', '4', '5', '6', '7', '8', '9', '+', '0', '\u{8}'],
            rows@ == seq![222i64, 306i64, 390i64, 492i64],
            key_under(side as int, x as int, y as int, 0) == key_under(side as int, x as int, y as int, k as int),
        decreases 12 - k,
    {
        let (row, column) = (k / 3, (k % 3) as i64);
        proof {
            assert(0 <= pitch as i64 * (2 * column + 1) <= 0x100_0000 * 5) by (nonlinear_arith)
                requires
                    0 <= pitch <= 0x100_0000,
                    0 <= column <= 2,
            ;
        }
        let cx = RAIL_W as i64 + 11 + (pitch as i64) * (2 * column + 1) / 2;
        let cy = rows[row];
        let (dx, dy) = (x as i64 - cx, y as i64 - cy);
        proof {
            assert(key_char(k as int) == keys@[k as int]) by {
                assert(key_char(0) == '1');
                assert(key_char(8) == '9');
            }
        }
        if -45 < dx && dx < 45 && -36 < dy && dy < 36 {
            return Some(keys[k]);
        }
        k = k + 1;
    }
    None
}

// ---- forwarding, the message menu, the find bar

/// The box that lists the conversations to forward to: (x, y, width, height).
pub open spec fn forward_area(window_w: int, window_h: int) -> (int, int, int, int) {
    let y = div_toward_zero(window_h - 440, 2);
    (div_toward_zero(window_w - 420, 2), if y > 8 { y } else { 8 }, 420, 440)
}

/// What a click hit while the forwarding list is open, the list being `targets`.
pub open spec fn forward_hit(x: int, y: int, window_w: int, window_h: int, scroll: int, targets: Seq<u8>) -> Hit {
    let r = forward_area(window_w, window_h);
    let list_top = r.1 + 64;
    if !inside(r, x, y) {
        Hit::ForwardOutside
    } else if list_top <= y < list_top + 336 && 0 <= div_toward_zero(y - list_top + scroll, 56) < targets.len() {
        Hit::ForwardTo(targets[div_toward_zero(y - list_top + scroll, 56)] as usize)
    } else {
        Hit::Nothing
    }
}

fn forward_hit_of(x: i32, y: i32, window_w: i32, window_h: i32, scroll: i32, targets: &Vec<u8>) -> (hit: Hit)
    ensures
        hit == forward_hit(x as int, y as int, window_w as int, window_h as int, scroll as int, targets@),
{
    let bx = half_toward_zero(window_w as i64 - 420);
    let half = half_toward_zero(window_h as i64 - 440);
    let by = if half > 8 { half } else { 8 };
    let (x, y) = (x as i64, y as i64);
    if x < bx || x >= bx + 420 || y < by || y >= by + 440 {
        return Hit::ForwardOutside;
    }
    let list_top = by + 64;
    if y >= list_top && y < list_top + 336 {
        let v = y - list_top + scroll as i64;
        let row = if v >= 0 { v / 56 } else { -((-v) / 56) };
        if row >= 0 && (row as usize) < targets.len() {
            return Hit::ForwardTo(targets[row as usize] as usize);
        }
    }
    Hit::Nothing
}

/// How many entries the pop-up of a message has: deleting is offered on our own messages only.
pub open spec fn menu_items(m: Message) -> int {
    if m.deleted { 2 } else if !m.outgoing { 4 } else { 6 }
}

/// The pop-up over a message asked for at (`x`, `y`): (x, y, width, height), kept inside the window.
pub open spec fn menu_area(x: int, y: int, window_w: int, window_h: int, items: int) -> (int, int, int, int) {
    let h = 54 + items * 36;
    let left = if x < window_w - 220 { x } else { window_w - 220 };
    let top = if y < window_h - h - 8 { y } else { window_h - h - 8 };
    (if left > 0 { left } else { 0 }, if top > 0 { top } else { 0 }, 212, h)
}

/// What a click at (`x`, `y`) hits on the message pop-up `r`: one of the six quick reactions,
/// the button of the whole picker, or an entry.
pub open spec fn menu_hit(x: int, y: int, r: (int, int, int, int)) -> Option<Hit> {
    if r.0 <= x < r.0 + r.2 && r.1 + 5 <= y < r.1 + r.3 - 5 {
        if y < r.1 + 49 {
            let q = div_toward_zero(x - (r.0 + 8), 28);
            let slot = if q < 0 { 0 } else if q > 6 { 6 } else { q };
            Some(if slot == 6 { Hit::ReactionMore } else { Hit::Reaction(slot as usize) })
        } else {
            let slot = (y - (r.1 + 49)) / 36;
            Some(if slot == 0 {
                Hit::MenuReply
            } else if slot == 1 {
                Hit::MenuCopy
            } else if slot == 2 {
                Hit::MenuForward
            } else if slot == 3 {
                Hit::MenuStar
            } else if slot == 4 {
                Hit::MenuEdit
            } else {
                Hit::MenuDelete
            })
        }
    } else {
        None
    }
}

fn menu_hit_of(x: i32, y: i32, at_x: i32, at_y: i32, window_w: i32, window_h: i32, items: i64) -> (hit: Option<Hit>)
    requires
        2 <= items <= 6,
    ensures
        hit == menu_hit(x as int, y as int, menu_area(at_x as int, at_y as int, window_w as int, window_h as int, items as int)),
{
    let h: i64 = 54 + items * 36;
    let left = if (at_x as i64) < window_w as i64 - 220 { at_x as i64 } else { window_w as i64 - 220 };
    let top = if (at_y as i64) < window_h as i64 - h - 8 { at_y as i64 } else { window_h as i64 - h - 8 };
    let (mx, my) = (if left > 0 { left } else { 0 }, if top > 0 { top } else { 0 });
    let (x, y) = (x as i64, y as i64);
    if x >= mx && x < mx + 212 && y >= my + 5 && y < my + h - 5 {
        if y < my + 49 {
            let v = x - (mx + 8);
            let q = if v >= 0 { v / 28 } else { -((-v) / 28) };
            let slot = if q < 0 { 0 } else if q > 6 { 6 } else { q };
            return Some(if slot == 6 { Hit::ReactionMore } else { Hit::Reaction(slot as usize) });
        }
        let slot = (y - (my + 49)) / 36;
        return Some(if slot == 0 {
            Hit::MenuReply
        } else if slot == 1 {
            Hit::MenuCopy
        } else if slot == 2 {
            Hit::MenuForward
        } else if slot == 3 {
            Hit::MenuStar
        } else if slot == 4 {
            Hit::MenuEdit
        } else {
            Hit::MenuDelete
        });
    }
    None
}

/// What a click on the find bar over a conversation that starts at `x0` hit: its three buttons
/// (up, down, close, 20 px around their centres) or its text box.
pub open spec fn find_hit(x: int, y: int, x0: int, window_w: int) -> Option<FindHit> {
    if y < HEADER_H || y >= HEADER_H + 56 {
        None
    } else if near(x, window_w - 108, 20) && near(y, 92, 20) {
        Some(FindHit::Up)
    } else if near(x, window_w - 68, 20) && near(y, 92, 20) {
        Some(FindHit::Down)
    } else if near(x, window_w - 28, 20) && near(y, 92, 20) {
        Some(FindHit::Close)
    } else if inside((x0 + 16, HEADER_H + 8, window_w - x0 - 246, 40), x, y) {
        Some(FindHit::Box(x as i32))
    } else {
        None
    }
}

fn find_hit_of(x: i32, y: i32, x0: i32, window_w: i32) -> (hit: Option<FindHit>)
    ensures
        hit == find_hit(x as int, y as int, x0 as int, window_w as int),
{
    if y < HEADER_H || y >= HEADER_H + 56 {
        return None;
    }
    let (xx, yy, w0, ww) = (x as i64, y as i64, x0 as i64, window_w as i64);
    let near_y = -20 < yy - 92 && yy - 92 < 20;
    if near_y && -20 < xx - (ww - 108) && xx - (ww - 108) < 20 {
        Some(FindHit::Up)
    } else if near_y && -20 < xx - (ww - 68) && xx - (ww - 68) < 20 {
        Some(FindHit::Down)
    } else if near_y && -20 < xx - (ww - 28) && xx - (ww - 28) < 20 {
        Some(FindHit::Close)
    } else if xx >= w0 + 16 && xx < w0 + 16 + (ww - w0 - 246) && yy >= 72 && yy < 112 {
        Some(FindHit::Box(x))
    } else {
        None
    }
}

// ---- the sidebar

/// The favourite of the calls list whose row (`x`, `y`) is on: the last such row of `rows`, placed
/// at their tops in the content scrolled by `scroll`, and on the right part of the row only.
pub open spec fn favorite_under(rows: Seq<(CallsItem, int)>, scroll: int, x: int, y: int, side: int) -> Option<usize>
    decreases rows.len(),
{
    if rows.len() == 0 {
        None
    } else {
        let (item, top) = rows.last();
        let t = top - scroll;
        let favorite = match item {
            CallsItem::Favorite(i) => Some(i),
            _ => None,
        };
        if favorite is Some && t <= y < t + CALLS_ROW_H && y >= CALLS_VIEW_TOP && x >= side - 130 {
            favorite
        } else {
            favorite_under(rows.drop_last(), scroll, x, y, side)
        }
    }
}

/// What the calls screen makes of a click, when it decides: the keypad's screen, its button in
/// the header, a favourite, or the pane at the right.
pub open spec fn calls_hit(chat: &Chat, x: int, y: int, side: int, window_w: int, window_h: int) -> Option<Hit> {
    if chat.screen.tab != Tab::Calls {
        None
    } else if chat.call.dialpad_open {
        Some(if x < side && y < HEADER_H {
            if x < RAIL_W + 55 { Hit::Back } else { Hit::Nothing }
        } else if inside(search_rect(side), x, y) {
            Hit::SearchBox(x as i32)
        } else if x < side {
            match key_under(side, x, y, 0) {
                Some(c) => Hit::Key(c),
                None => Hit::Nothing,
            }
        } else {
            pane_hit(&chat.font, x, y, side, window_w, window_h)
        })
    } else if x < side && y < HEADER_H && near(x, side - 87, 20) {
        Some(Hit::OpenDialpad)
    } else if x < side {
        match favorite_under(calls_layout(chat.lists.favorites@, chat.lists.calls@, chat.boxes.search@.text).0,
            chat.scroll.panel as int, x, y, side) {
            Some(i) => Some(Hit::Call(i)),
            None => None,
        }
    } else {
        Some(pane_hit(&chat.font, x, y, side, window_w, window_h))
    }
}

/// What the status, channels and settings screens (and the calls screen where it does not decide)
/// make of a click: the status menu button and the search box.
pub open spec fn other_tab_hit(chat: &Chat, x: int, y: int, side: int) -> Hit {
    if chat.screen.tab == Tab::Status && in_disc(x, y, (side - 87, HEADER_H / 2), 20) {
        Hit::Menu
    } else if inside(search_rect(side), x, y) && chat.screen.tab != Tab::Status {
        Hit::SearchBox(x as i32)
    } else {
        Hit::Nothing
    }
}

/// The row of the new-conversation panel a click at height `y` is on: the last contact, self or
/// number row of `rows` under it, below the panel's header.
pub open spec fn contact_under(rows: Seq<(ContactsItem, int)>, scroll: int, y: int) -> Option<Hit>
    decreases rows.len(),
{
    if rows.len() == 0 {
        None
    } else {
        let (item, top) = rows.last();
        let t = top - scroll;
        let hit = match item {
            ContactsItem::Contact(i) => Some(Hit::Contact(i)),
            ContactsItem::Myself => Some(Hit::SelfChat),
            ContactsItem::Number => Some(Hit::NumberChat),
            _ => None,
        };
        if hit is Some && y >= CALLS_VIEW_TOP && t <= y < t + NEW_CHAT_ROW_H {
            hit
        } else {
            contact_under(rows.drop_last(), scroll, y)
        }
    }
}

/// The filter chip a click is on.
pub open spec fn chip_under(font: &Font, unread: nat, x: int, y: int) -> Option<usize> {
    let (first, second) = chip_areas(font, unread);
    if inside(first, x, y) { Some(0) } else if inside(second, x, y) { Some(1) } else { None }
}

/// What a click on the sidebar of the chats screen hits: the favourites' list, the new
/// conversation panel, or the list of conversations with its header, search box and chips.
pub open spec fn chats_sidebar_hit(chat: &Chat, x: int, y: int, side: int) -> Hit {
    if chat.screen.starred_open {
        if y < HEADER_H {
            if x < RAIL_W + 55 { Hit::Back } else { Hit::Nothing }
        } else {
            let row = div_toward_zero(y - HEADER_H + chat.scroll.panel, STARRED_ROW_H as int);
            if 0 <= row < starred_indices(chat.store.messages@).len() { Hit::Starred(row as usize) } else { Hit::Nothing }
        }
    } else if chat.screen.new_chat {
        if y < HEADER_H {
            if x < RAIL_W + 55 { Hit::Back } else { Hit::Nothing }
        } else if inside(search_rect(side), x, y) {
            Hit::SearchBox(x as i32)
        } else {
            match contact_under(contacts_layout(chat.lists.contacts@, chat.boxes.search@.text).0, chat.scroll.panel as int, y) {
                Some(h) => h,
                None => Hit::Nothing,
            }
        }
    } else if in_disc(x, y, (side - 39, HEADER_H / 2), 20) {
        Hit::NewChat
    } else if in_disc(x, y, (side - 87, HEADER_H / 2), 20) {
        Hit::Menu
    } else if inside(search_rect(side), x, y) {
        Hit::SearchBox(x as i32)
    } else if chip_under(&chat.font, unread_sum(chat.store.conversations@) as nat, x, y) is Some {
        Hit::Chip(chip_under(&chat.font, unread_sum(chat.store.conversations@) as nat, x, y).unwrap())
    } else if y >= LIST_TOP && 0 <= div_toward_zero(y - LIST_TOP + chat.scroll.list, ROW_H as int) < chat.store.visible@.len() {
        Hit::Row(chat.store.visible@[div_toward_zero(y - LIST_TOP + chat.scroll.list, ROW_H as int)] as usize)
    } else {
        Hit::Nothing
    }
}

fn div_zero(v: i64, d: i64) -> (q: i64)
    requires
        d > 0,
        -0x1000_0000_0000 <= v <= 0x1000_0000_0000,
    ensures
        q == div_toward_zero(v as int, d as int),
{
    if v >= 0 { v / d } else { -((-v) / d) }
}

impl Chat {
    fn calls_hit_of(&self, x: i32, y: i32, side: i32, window_w: i32, window_h: i32) -> (hit: Option<Hit>)
        requires
            self.wf(),
            0 <= window_w <= 0x100_0000,
            0 <= window_h <= 0x100_0000,
            side == side_of(window_w as int),
        ensures
            hit == calls_hit(self, x as int, y as int, side as int, window_w as int, window_h as int),
    {
        if self.screen.tab != Tab::Calls {
            return None;
        }
        if self.call.dialpad_open {
            if x < side && y < HEADER_H {
                return Some(if x < RAIL_W + 55 { Hit::Back } else { Hit::Nothing });
            }
            let (bx, by, bw, bh) = search_box(side);
            if x >= bx && (x as i64) < bx as i64 + bw as i64 && y >= by && y < by + bh {
                return Some(Hit::SearchBox(x));
            }
            return Some(if x < side {
                match key_at(side, x, y) {
                    Some(c) => Hit::Key(c),
                    None => Hit::Nothing,
                }
            } else {
                pane_hit_of(&self.font, x, y, side, window_w, window_h)
            });
        }
        if x < side && y < HEADER_H && -20 < x as i64 - (side as i64 - 87) && (x as i64) - (side as i64 - 87) < 20 {
            return Some(Hit::OpenDialpad);
        }
        if x >= side {
            return Some(pane_hit_of(&self.font, x, y, side, window_w, window_h));
        }
        let (rows, _) = self.calls_place();
        let ghost all = calls_layout(self.lists.favorites@, self.lists.calls@, self.boxes.search@.text).0;
        let scroll = self.scroll.panel as i64;
        let mut found: Option<usize> = None;
        let mut k: usize = 0;
        proof {
            assert(all.take(0) =~= Seq::<(CallsItem, int)>::empty());
        }
        while k < rows.len()
            invariant
                0 <= k <= rows@.len(),
                crate::chat_lists::int_rows(rows@) == all,
                scroll == self.scroll.panel,
                found == favorite_under(all.take(k as int), scroll as int, x as int, y as int, side as int),
            decreases rows@.len() - k,
        {
            let (item, top) = rows[k];
            let t = top as i64 - scroll;
            proof {
                assert(crate::chat_lists::int_rows(rows@)[k as int] == all[k as int]);
            }
            if let CallsItem::Favorite(i) = item {
                if (y as i64) >= t && (y as i64) < t + CALLS_ROW_H as i64 && y >= CALLS_VIEW_TOP && (x as i64) >= side as i64 - 130 {
                    found = Some(i);
                }
            }
            proof {
                assert(all.take(k + 1).drop_last() =~= all.take(k as int));
                assert(all.take(k + 1).last() == all[k as int]);
            }
            k = k + 1;
        }
        proof {
            assert(all.take(k as int) =~= all);
        }
        match found {
            Some(i) => Some(Hit::Call(i)),
            None => None,
        }
    }

    fn contact_hit_of(&self, y: i32) -> (hit: Option<Hit>)
        requires
            self.wf(),
        ensures
            hit == contact_under(contacts_layout(self.lists.contacts@, self.boxes.search@.text).0, self.scroll.panel as int, y as int),
    {
        let (rows, _) = self.contacts_place();
        let ghost all = contacts_layout(self.lists.contacts@, self.boxes.search@.text).0;
        let scroll = self.scroll.panel as i64;
        let mut found: Option<Hit> = None;
        let mut k: usize = 0;
        proof {
            assert(all.take(0) =~= Seq::<(ContactsItem, int)>::empty());
        }
        while k < rows.len()
            invariant
                0 <= k <= rows@.len(),
                crate::chat_lists::int_rows(rows@) == all,
                scroll == self.scroll.panel,
                found == contact_under(all.take(k as int), scroll as int, y as int),
            decreases rows@.len() - k,
        {
            let (item, top) = rows[k];
            let t = top as i64 - scroll;
            proof {
                assert(crate::chat_lists::int_rows(rows@)[k as int] == all[k as int]);
            }
            let hit = match item {
                ContactsItem::Contact(i) => Some(Hit::Contact(i)),
                ContactsItem::Myself => Some(Hit::SelfChat),
                ContactsItem::Number => Some(Hit::NumberChat),
                _ => None,
            };
            if hit.is_some() && y >= CALLS_VIEW_TOP && (y as i64) >= t && (y as i64) < t + NEW_CHAT_ROW_H as i64 {
                found = hit;
            }
            proof {
                assert(all.take(k + 1).drop_last() =~= all.take(k as int));
                assert(all.take(k + 1).last() == all[k as int]);
            }
            k = k + 1;
        }
        proof {
            assert(all.take(k as int) =~= all);
        }
        found
    }

    fn chats_sidebar_hit_of(&self, x: i32, y: i32, side: i32) -> (hit: Hit)
        requires
            self.wf(),
            can_lay_out(&self.font),
            0 <= side <= 0x100_0000,
        ensures
            hit == chats_sidebar_hit(self, x as int, y as int, side as int),
    {
        let (bx, by, bw, bh) = search_box(side);
        let in_box = x >= bx && (x as i64) < bx as i64 + bw as i64 && y >= by && y < by + bh;
        if self.screen.starred_open {
            if y < HEADER_H {
                return if x < RAIL_W + 55 { Hit::Back } else { Hit::Nothing };
            }
            let row = div_zero(y as i64 - HEADER_H as i64 + self.scroll.panel as i64, STARRED_ROW_H as i64);
            let count = self.starred_count();
            return if row >= 0 && (row as usize) < count { Hit::Starred(row as usize) } else { Hit::Nothing };
        }
        if self.screen.new_chat {
            if y < HEADER_H {
                return if x < RAIL_W + 55 { Hit::Back } else { Hit::Nothing };
            }
            if in_box {
                return Hit::SearchBox(x);
            }
            return match self.contact_hit_of(y) {
                Some(h) => h,
                None => Hit::Nothing,
            };
        }
        if within(x, y, side - 39, HEADER_H / 2, 20) {
            return Hit::NewChat;
        }
        if within(x, y, side - 87, HEADER_H / 2, 20) {
            return Hit::Menu;
        }
        if in_box {
            return Hit::SearchBox(x);
        }
        let chips = chip_rects(&self.font, self.unread_total());
        let (ax, ay, aw, ah) = chips[0];
        if x >= ax && (x as i64) < ax as i64 + aw as i64 && y >= ay && (y as i64) < ay as i64 + ah as i64 {
            return Hit::Chip(0);
        }
        let (cx, cy, cw, ch) = chips[1];
        if x >= cx && (x as i64) < cx as i64 + cw as i64 && y >= cy && (y as i64) < cy as i64 + ch as i64 {
            return Hit::Chip(1);
        }
        if y >= LIST_TOP {
            let row = div_zero(y as i64 - LIST_TOP as i64 + self.scroll.list as i64, ROW_H as i64);
            if row >= 0 && (row as usize) < self.store.visible.len() {
                return Hit::Row(self.store.visible[row as usize] as usize);
            }
        }
        Hit::Nothing
    }
}

// ---- the open conversation

/// What the message pop-up makes of a click, when one is open and the click is on it.
pub open spec fn message_menu_hit(chat: &Chat, x: int, y: int, window_w: int, window_h: int) -> Option<Hit> {
    match chat.marks.message_menu {
        Some((index, at_x, at_y)) => menu_hit(x, y, menu_area(at_x as int, at_y as int, window_w, window_h,
            menu_items(chat.store.messages@[index as int]))),
        None => None,
    }
}

/// A click on the open emoji picker: an emoji of the grid, or the panel around it.
pub open spec fn picker_hit(chat: &Chat, x: int, y: int, side: int, window_h: int) -> Hit {
    let (px, py) = (side + 60, window_h - INPUT_H - 226);
    let (column, row) = (div_toward_zero(x - px - 8, 34), div_toward_zero(y - py - 8, 34));
    let index = (chat.scroll.picker_row + (if row > 0 { row } else { 0 })) * 8 + (if column > 0 { column } else { 0 });
    if x >= px + 8 && y >= py + 8 && 0 <= column < 8 && 0 <= row < 6 && index < emoji_count(chat.font.emoji@) {
        Hit::Emoji(index as usize)
    } else {
        Hit::EmojiPanel
    }
}

/// A click on the footer: the emoji button, the send button (while there is a draft), or the box.
pub open spec fn footer_hit(chat: &Chat, x: int, y: int, side: int, window_w: int, window_h: int) -> Hit {
    if in_disc(x, y, (side + 76, window_h - INPUT_H / 2), 16) {
        Hit::EmojiButton
    } else if chat.boxes.draft@.text.len() > 0 && in_disc(x, y, (window_w - 38, window_h - INPUT_H / 2), 20) {
        Hit::Send
    } else if side + 12 <= x < window_w - 12 && y >= window_h - INPUT_H + 6 {
        Hit::MessageBox(x as i32)
    } else {
        Hit::Nothing
    }
}

/// Whether a reply is being written to a message we have.
pub open spec fn replying(chat: &Chat) -> bool {
    id_position(chat.store.messages@, chat.screen.selected as u8, chat.boxes.reply_to@) is Some
}

/// What a click on the open conversation (right of the sidebar) hits, from the top layer down.
pub open spec fn conversation_hit(chat: &Chat, x: int, y: int, window_w: int, window_h: int) -> Hit {
    let side = side_of(window_w);
    let bar = if replying(chat) { 60int } else { 0 };
    if chat.screen.info_open && x >= window_w - INFO_W {
        if y < HEADER_H {
            if x < window_w - INFO_W + 60 { Hit::InfoClose } else { Hit::InfoPanel }
        } else {
            match info_row_under(y) {
                Some(row) => Hit::InfoRow(row),
                None => Hit::InfoPanel,
            }
        }
    } else if y < HEADER_H && x < window_w - 230 && x >= side {
        Hit::HeaderInfo
    } else if y < HEADER_H && in_disc(x, y, (window_w - 36, HEADER_H / 2), 20) {
        Hit::ChatMenu
    } else if y < HEADER_H && in_disc(x, y, (window_w - 92, HEADER_H / 2), 20) {
        Hit::FindOpen
    } else if message_menu_hit(chat, x, y, window_w, window_h) is Some {
        message_menu_hit(chat, x, y, window_w, window_h).unwrap()
    } else if chat.finder.open && find_hit(x, y, side, window_w) is Some {
        Hit::Find(find_hit(x, y, side, window_w).unwrap())
    } else if chat.marks.picker_open && inside(picker_area(side, window_h), x, y) {
        picker_hit(chat, x, y, side, window_h)
    } else if y >= window_h - INPUT_H {
        footer_hit(chat, x, y, side, window_w, window_h)
    } else if hover_hit(chat, x, y, window_w) is Some {
        Hit::HoverButton(hover_hit(chat, x, y, window_w).unwrap())
    } else if replying(chat) && near(x, window_w - 34, 20) && near(y, window_h - INPUT_H - 30, 20) {
        Hit::ReplyClose
    } else if !(chat.scroll.conversation >= overflow(layout_of(chat).1, viewport_of(chat)) - 8)
        && in_disc(x, y, (window_w - 44, window_h - bar - INPUT_H - 34), 21) {
        Hit::ScrollBottom
    } else if y >= HEADER_H {
        match quote_under(chat, layout_of(chat).0, x, y, window_w) {
            Some(q) => Hit::Quote(q),
            None => Hit::Conversation,
        }
    } else {
        Hit::Nothing
    }
}

/// What a click on the chat screen hits, the forwarding list aside: the call screens first, then
/// the rail, the screen of the open tab, and the open conversation.
pub open spec fn hit_of(chat: &Chat, x: int, y: int, window_w: int, window_h: int) -> Hit {
    let side = side_of(window_w);
    if call_hit(chat, x, y, window_w, window_h) is Some {
        call_hit(chat, x, y, window_w, window_h).unwrap()
    } else if x < RAIL_W {
        match tab_under(y, window_h) {
            Some(tab) => Hit::Tab(tab),
            None => Hit::Nothing,
        }
    } else if calls_hit(chat, x, y, side, window_w, window_h) is Some {
        calls_hit(chat, x, y, side, window_w, window_h).unwrap()
    } else if chat.screen.tab != Tab::Chats {
        other_tab_hit(chat, x, y, side)
    } else if x < side {
        chats_sidebar_hit(chat, x, y, side)
    } else if !chat.screen.open {
        Hit::Nothing
    } else {
        conversation_hit(chat, x, y, window_w, window_h)
    }
}

/// The pop-up of the message menu points at a message we have.
pub open spec fn menu_in_range(chat: &Chat) -> bool {
    chat.marks.message_menu matches Some(m) ==> (m.0 as int) < chat.store.messages@.len()
}

impl Chat {
    #[verifier::spinoff_prover]
    #[verifier::rlimit(60)]
    fn conversation_hit_of(&self, x: i32, y: i32, window_w: i32, window_h: i32) -> (hit: Hit)
        requires
            viewable(self, window_w as int),
            0 <= window_h <= 0x100_0000,
            menu_in_range(self),
        ensures
            hit == conversation_hit(self, x as int, y as int, window_w as int, window_h as int),
    {
        let side = sidebar_width(window_w);
        if self.screen.info_open && (x as i64) >= (window_w as i64) - (INFO_W as i64) {
            if y < HEADER_H {
                return if (x as i64) < (window_w as i64) - (INFO_W as i64) + 60 { Hit::InfoClose } else { Hit::InfoPanel };
            }
            return match info_row_at(y) {
                Some(row) => Hit::InfoRow(row),
                None => Hit::InfoPanel,
            };
        }
        if y < HEADER_H && (x as i64) < (window_w as i64) - 230 && x >= side {
            return Hit::HeaderInfo;
        }
        if y < HEADER_H && within(x, y, window_w - 36, HEADER_H / 2, 20) {
            return Hit::ChatMenu;
        }
        if y < HEADER_H && within(x, y, window_w - 92, HEADER_H / 2, 20) {
            return Hit::FindOpen;
        }
        if let Some((index, at_x, at_y)) = self.marks.message_menu {
            let message = &self.store.messages[index];
            let items: i64 = if message.deleted { 2 } else if !message.outgoing { 4 } else { 6 };
            if let Some(hit) = menu_hit_of(x, y, at_x, at_y, window_w, window_h, items) {
                return hit;
            }
        }
        if self.finder.open {
            if let Some(hit) = find_hit_of(x, y, side, window_w) {
                return Hit::Find(hit);
            }
        }
        if self.marks.picker_open && in_picker(x, y, window_w, window_h) {
            let (px, py) = (side as i64 + 60, window_h as i64 - INPUT_H as i64 - 226);
            let column = div_zero(x as i64 - px - 8, 34);
            let row = div_zero(y as i64 - py - 8, 34);
            let total = crate::font::emoji_total(&self.font);
            if (x as i64) >= px + 8 && (y as i64) >= py + 8 && 0 <= column && column < 8 && 0 <= row && row < 6 {
                let index = (self.scroll.picker_row + row as usize) * 8 + column as usize;
                if index < total {
                    return Hit::Emoji(index);
                }
            }
            return Hit::EmojiPanel;
        }
        if (y as i64) >= (window_h as i64) - (INPUT_H as i64) {
            if within(x, y, side + 76, window_h - INPUT_H / 2, 16) {
                return Hit::EmojiButton;
            }
            if self.boxes.draft.len() > 0 && within(x, y, window_w - 38, window_h - INPUT_H / 2, 20) {
                return Hit::Send;
            }
            return if x >= side + 12 && (x as i64) < (window_w as i64) - 12 && (y as i64) >= (window_h as i64) - (INPUT_H as i64) + 6 {
                Hit::MessageBox(x)
            } else {
                Hit::Nothing
            };
        }
        if let Some(index) = hover_button_hit(self, x, y, window_w) {
            return Hit::HoverButton(index);
        }
        let reply = self.replying_to().is_some();
        if reply {
            let (dx, dy) = (x as i64 - (window_w as i64 - 34), y as i64 - (window_h as i64 - INPUT_H as i64 - 30));
            if -20 < dx && dx < 20 && -20 < dy && dy < 20 {
                return Hit::ReplyClose;
            }
        }
        if !self.at_bottom() {
            let bar = self.reply_bar_h();
            if within(x, y, window_w - 44, window_h - bar - INPUT_H - 34, 21) {
                return Hit::ScrollBottom;
            }
        }
        if y >= HEADER_H {
            return match quote_at(self, x, y, window_w) {
                Some(q) => Hit::Quote(q),
                None => Hit::Conversation,
            };
        }
        Hit::Nothing
    }
}

/// What a click at (`x`, `y`) on the chat screen of a window `window_w` by `window_h` hits.
pub fn hit_test(x: i32, y: i32, window_w: i32, window_h: i32, chat: &Chat) -> (hit: Hit)
    requires
        viewable(chat, window_w as int),
        0 <= window_h <= 0x100_0000,
        can_lay_out(&chat.font),
        menu_in_range(chat),
    ensures
        chat.marks.forward_open ==> exists|targets: Seq<u8>|
            #[trigger] forward_order(chat.store.conversations@, targets)
                && hit == forward_hit(x as int, y as int, window_w as int, window_h as int, chat.scroll.forward as int, targets),
        !chat.marks.forward_open ==> hit == hit_of(chat, x as int, y as int, window_w as int, window_h as int),
{
    let side = sidebar_width(window_w);
    if chat.marks.forward_open {
        let targets = chat.forward_targets();
        let hit = forward_hit_of(x, y, window_w, window_h, chat.scroll.forward, &targets);
        assert(forward_order(chat.store.conversations@, targets@));
        return hit;
    }
    if let Some(hit) = call_hit_of(chat, x, y, window_w, window_h) {
        return hit;
    }
    if x < RAIL_W {
        return match tab_at(y, window_h) {
            Some(tab) => Hit::Tab(tab),
            None => Hit::Nothing,
        };
    }
    if let Some(hit) = chat.calls_hit_of(x, y, side, window_w, window_h) {
        return hit;
    }
    if chat.screen.tab != Tab::Chats {
        let (bx, by, bw, bh) = search_box(side);
        let in_box = x >= bx && (x as i64) < bx as i64 + bw as i64 && y >= by && y < by + bh;
        if chat.screen.tab == Tab::Status && within(x, y, side - 87, HEADER_H / 2, 20) {
            return Hit::Menu;
        }
        return if in_box && chat.screen.tab != Tab::Status { Hit::SearchBox(x) } else { Hit::Nothing };
    }
    if x < side {
        return chat.chats_sidebar_hit_of(x, y, side);
    }
    if !chat.screen.open {
        return Hit::Nothing;
    }
    chat.conversation_hit_of(x, y, window_w, window_h)
}

// ---- where a click puts the caret

/// The first character the text box shows, from `s` on: the text scrolls only as far as keeping
/// the caret in view needs.
pub open spec fn shown_start(font: &Font, text: Seq<char>, caret: int, style: u16, max_width: int, s: int) -> int
    decreases caret - s,
{
    if s < caret && text_pixels(font, text.subrange(s, caret), style) > max_width - 4 {
        shown_start(font, text, caret, style, max_width, s + 1)
    } else {
        s
    }
}

/// Where the shown part of the text ends, from `e` down.
pub open spec fn shown_end(font: &Font, text: Seq<char>, caret: int, style: u16, max_width: int, start: int, e: int) -> int
    decreases e,
{
    if e > caret && e > 0 && text_pixels(font, text.subrange(start, e), style) > max_width {
        shown_end(font, text, caret, style, max_width, start, e - 1)
    } else {
        e
    }
}

/// The gap between characters from `o` to `end` nearest to `dx` pixels from the start of the shown
/// text, the first of equally near ones; `best` is the nearest so far and how near.
pub open spec fn nearest_gap(font: &Font, text: Seq<char>, style: u16, start: int, end: int, dx: int, o: int, best: (int, int)) -> int
    decreases end + 1 - o,
{
    if o > end {
        best.0
    } else {
        let w = text_pixels(font, text.subrange(start, o), style) - dx;
        let gap = if w < 0 { -w } else { w };
        nearest_gap(font, text, style, start, end, dx, o + 1, if gap < best.1 { (o, gap) } else { best })
    }
}

/// The character position a click at `dx` pixels from the start of the shown part of a box
/// `max_width` wide lands on, the box holding `text` with its caret at `caret`.
pub open spec fn caret_under(font: &Font, text: Seq<char>, caret: int, style: u16, max_width: int, dx: int) -> int {
    let start = shown_start(font, text, caret, style, max_width, 0);
    let end = shown_end(font, text, caret, style, max_width, start, text.len() as int);
    nearest_gap(font, text, style, start, end, dx, start, (start, i32::MAX as int))
}

fn run_pixels(font: &Font, text: &[char], from: usize, to: usize, style: u16) -> (width: i32)
    requires
        font.wf(),
        font.has_style(style),
        text@.len() <= MEASURE_MAX,
        from <= to <= text@.len(),
    ensures
        width == text_pixels(font, text@.subrange(from as int, to as int), style),
        -0x200_0000 <= width <= 0x200_0000,
{
    let part = slice_chars(text, from, to);
    crate::font::measure_run(font, part.as_slice(), style)
}

/// The character position in a text box a click at `dx` pixels from the start of its shown text
/// lands on: the nearest gap between characters.
fn caret_at(font: &Font, text: &[char], caret: usize, style: u16, max_width: i32, dx: i64) -> (at: usize)
    requires
        font.wf(),
        font.has_style(style),
        text@.len() <= MEASURE_MAX,
        caret <= text@.len(),
        -0x1000_0000 <= max_width <= 0x1000_0000,
        -0x1_0000_0000 <= dx <= 0x1_0000_0000,
    ensures
        at as int == caret_under(font, text@, caret as int, style, max_width as int, dx as int),
{
    let mut start: usize = 0;
    while start < caret && run_pixels(font, text, start, caret, style) > max_width - 4
        invariant
            font.wf(),
            font.has_style(style),
            text@.len() <= MEASURE_MAX,
            caret <= text@.len(),
            -0x1000_0000 <= max_width <= 0x1000_0000,
            0 <= start <= caret,
            shown_start(font, text@, caret as int, style, max_width as int, 0)
                == shown_start(font, text@, caret as int, style, max_width as int, start as int),
        decreases caret - start,
    {
        start = start + 1;
    }
    let mut end: usize = text.len();
    while end > caret && run_pixels(font, text, start, end, style) > max_width
        invariant
            font.wf(),
            font.has_style(style),
            text@.len() <= MEASURE_MAX,
            start <= caret <= end <= text@.len(),
            -0x1000_0000 <= max_width <= 0x1000_0000,
            shown_end(font, text@, caret as int, style, max_width as int, start as int, text@.len() as int)
                == shown_end(font, text@, caret as int, style, max_width as int, start as int, end as int),
        decreases end,
    {
        end = end - 1;
    }
    let mut best: (usize, i64) = (start, i32::MAX as i64);
    let mut o: usize = start;
    while o <= end
        invariant
            font.wf(),
            font.has_style(style),
            text@.len() <= MEASURE_MAX,
            start <= o <= end + 1,
            end <= text@.len(),
            -0x1_0000_0000 <= dx <= 0x1_0000_0000,
            nearest_gap(font, text@, style, start as int, end as int, dx as int, start as int, (start as int, i32::MAX as int))
                == nearest_gap(font, text@, style, start as int, end as int, dx as int, o as int, (best.0 as int, best.1 as int)),
        decreases end + 1 - o,
    {
        let w = run_pixels(font, text, start, o, style) as i64 - dx;
        let gap = if w < 0 { -w } else { w };
        if gap < best.1 {
            best = (o, gap);
        }
        o = o + 1;
    }
    best.0
}

/// The character position in the footer's box that a click at `x` lands on.
pub fn message_caret_at(chat: &Chat, x: i32, window_w: i32) -> (at: usize)
    requires
        viewable(chat, window_w as int),
        chat.font.has_style(INPUT_TEXT),
    ensures
        at as int == caret_under(&chat.font, chat.boxes.draft@.text, chat.boxes.draft@.cursor, INPUT_TEXT,
            window_w - side_of(window_w as int) - 24 - 91 - 64, x - (side_of(window_w as int) + 12 + 91)),
{
    let side = sidebar_width(window_w);
    let (box_x, box_w) = message_box(side, window_w);
    proof {
        chat.boxes.draft.lemma_wf();
    }
    let cursor = chat.boxes.draft.caret();
    caret_at(&chat.font, chat.boxes.draft.chars(), cursor, INPUT_TEXT, box_w - 91 - 64, x as i64 - (box_x as i64 + 91))
}

/// The character position in the search box that a click at `x` lands on; `icon` when the box
/// shows its magnifier.
pub fn search_caret_at(chat: &Chat, x: i32, window_w: i32, icon: bool) -> (at: usize)
    requires
        viewable(chat, window_w as int),
    ensures
        at as int == caret_under(&chat.font, chat.boxes.search@.text, chat.boxes.search@.cursor, PREVIEW,
            side_of(window_w as int) - RAIL_W - 40 - 80, x - (RAIL_W + 21 + if icon { 48int } else { 14 })),
{
    let (box_x, _, box_w, _) = search_box(sidebar_width(window_w));
    proof {
        chat.boxes.search.lemma_wf();
    }
    let cursor = chat.boxes.search.caret();
    caret_at(&chat.font, chat.boxes.search.chars(), cursor, PREVIEW, box_w - 80, x as i64 - (box_x as i64 + if icon { 48 } else { 14 }))
}

/// The character position in the find bar's text box that a click at `x` lands on.
pub fn find_caret_at(chat: &Chat, x: i32, window_w: i32) -> (at: usize)
    requires
        viewable(chat, window_w as int),
    ensures
        at as int == caret_under(&chat.font, chat.finder.field@.text, chat.finder.field@.cursor, PREVIEW,
            window_w - side_of(window_w as int) - 246 - 72, x - (side_of(window_w as int) + 16 + 48)),
{
    let side = sidebar_width(window_w);
    proof {
        chat.finder.field.lemma_wf();
    }
    let cursor = chat.finder.field.caret();
    let bw = window_w - side - 16 - 230;
    caret_at(&chat.font, chat.finder.field.chars(), cursor, PREVIEW, bw - 72, x as i64 - (side as i64 + 16 + 48))
}

// ---- whole screens

/// The window's background, and the colour of secondary text.
pub const BG_APP: u32 = 0x161717;
pub const TEXT_SECONDARY: u32 = 0xa2a3a3;
/// The style of the notice's text.
pub const NOTICE: u16 = 17;

/// `px` with the rectangle at (`x`, `y`), `w` by `h`, painted `color`, in a band `bw` wide from row `y0`.
pub open spec fn filled(px: Seq<u32>, bw: int, y0: int, x: int, y: int, w: int, h: int, color: u32) -> Seq<u32> {
    Seq::new(px.len(), |i: int| if in_rect(column(bw, i), line(bw, y0, i), x, y, w, h) { color } else { px[i] })
}

/// Draws `text` with its middle at `center_x`.
fn centered(c: &mut Canvas, font: &Font, center_x: i32, baseline: i32, style: u16, color: u32, text: &str)
    requires
        old(c).wf(),
        font.wf(),
        font.has_style(style),
        text@.len() <= MEASURE_MAX,
        -0x80_0000 <= center_x <= 0x80_0000,
        -0x0F00_0000 <= baseline <= 0x0F00_0000,
    ensures
        final(c).wf(),
        final(c).same_band(old(c)),
        final(c).px@ == crate::font::text_drawn(font, old(c).px@, old(c).w as int, old(c).y0 as int, old(c).rows as int,
            center_x - div_toward_zero(text_pixels(font, text@, style), 2), baseline as int, style, color, text@),
{
    let width = measure(font, text, style);
    assert(-21_299_201 <= width <= 21_299_201) by (nonlinear_arith)
        requires
            -(text@.len() as int) * 5200 - 1 <= width <= (text@.len() as int) * 5200 + 1,
            text@.len() <= 4096,
    ;
    let half = if width >= 0 { width / 2 } else { -((-width) / 2) };
    crate::font::draw(c, font, center_x - half, baseline, style, color, text);
}

/// The notice screen: `text` in the middle of an empty window.
pub fn notice(c: &mut Canvas, font: &Font, text: &str)
    requires
        old(c).wf(),
        old(c).w <= 0x100_0000,
        old(c).h <= 0x100_0000,
        font.wf(),
        font.has_style(NOTICE),
        text@.len() <= MEASURE_MAX,
    ensures
        final(c).wf(),
        final(c).same_band(old(c)),
        final(c).px@ == crate::font::text_drawn(font,
            filled(old(c).px@, old(c).w as int, old(c).y0 as int, 0, 0, old(c).w as int, old(c).h as int, BG_APP),
            old(c).w as int, old(c).y0 as int, old(c).rows as int,
            old(c).w / 2 - div_toward_zero(text_pixels(font, text@, NOTICE), 2), old(c).h / 2, NOTICE, TEXT_SECONDARY, text@),
{
    let ghost (bw, by0) = (c.w as int, c.y0 as int);
    let (w, h) = (c.w, c.h);
    c.fill_rect(0, 0, w, h, BG_APP);
    assert(c.px@ =~= filled(old(c).px@, bw, by0, 0, 0, w as int, h as int, BG_APP));
    centered(c, font, w / 2, h / 2, NOTICE, TEXT_SECONDARY, text);
}

/// Pixels per QR module, and the quiet zone around the code, in modules.
pub const QR_MODULE_PX: i32 = 6;
pub const QR_QUIET_MODULES: i32 = 4;
pub const QR_DARK: u32 = 0x000000;
pub const QR_LIGHT: u32 = 0xffffff;
pub const TEXT_PRIMARY: u32 = 0xfafafa;
/// The style of the pairing screen's title: 17 px, bold.
pub const TITLE: u16 = 17 | crate::font::BOLD;

/// The side of the light card the code sits on: the code and its quiet zone.
pub open spec fn qr_card() -> int {
    (57 + 2 * QR_QUIET_MODULES) * QR_MODULE_PX
}

/// Whether (`col`, `row`) lies in a dark module of `qr` drawn from (`ox`, `oy`).
pub open spec fn in_dark_module(qr: &Qr, col: int, row: int, ox: int, oy: int) -> bool {
    let (dx, dy) = (col - ox, row - oy);
    0 <= dx < 57 * QR_MODULE_PX && 0 <= dy < 57 * QR_MODULE_PX && qr.module(dx / QR_MODULE_PX as int, dy / QR_MODULE_PX as int)
}

/// The pairing screen before its two lines of text: the background, the light card and the
/// dark modules of `qr`, centred in a window `w` by `h`.
pub open spec fn qr_drawn(qr: &Qr, px: Seq<u32>, bw: int, y0: int, w: int, h: int) -> Seq<u32> {
    let (left, top) = (div_toward_zero(w - qr_card(), 2), div_toward_zero(h - qr_card(), 2));
    let card = filled(px, bw, y0, 0, 0, w, h, BG_APP);
    Seq::new(px.len(), |i: int|
        if in_dark_module(qr, column(bw, i), line(bw, y0, i), left + 24, top + 24) {
            QR_DARK
        } else {
            round_rect_pixel(card[i], column(bw, i), line(bw, y0, i), left, top, qr_card(), qr_card(), 12, QR_LIGHT)
        })
}

/// The pairing screen: the code to scan on a light card in the middle, a title above and what to
/// do below.
pub fn login(c: &mut Canvas, font: &Font, qr: &Qr)
    requires
        old(c).wf(),
        old(c).w <= 0x100_0000,
        old(c).h <= 0x100_0000,
        font.wf(),
        font.has_style(TITLE),
        font.has_style(PREVIEW),
    ensures
        final(c).wf(),
        final(c).same_band(old(c)),
        ({
            let (bw, y0, rows) = (old(c).w as int, old(c).y0 as int, old(c).rows as int);
            let top = div_toward_zero(old(c).h - qr_card(), 2);
            let title = "Conecte o ZapZap ao WhatsApp"@;
            let hint = "Abra o WhatsApp > Aparelhos conectados > Conectar um aparelho"@;
            let titled = text_drawn(font, qr_drawn(qr, old(c).px@, bw, y0, old(c).w as int, old(c).h as int), bw, y0, rows,
                old(c).w / 2 - div_toward_zero(text_pixels(font, title, TITLE), 2), top - 28, TITLE, TEXT_PRIMARY, title);
            final(c).px@ == text_drawn(font, titled, bw, y0, rows, old(c).w / 2 - div_toward_zero(text_pixels(font, hint, PREVIEW), 2),
                top + qr_card() + 32, PREVIEW, TEXT_SECONDARY, hint)
        }),
{
    let ghost prior = c.px@;
    let ghost (bw, by0) = (c.w as int, c.y0 as int);
    let side: i32 = (57 + 2 * QR_QUIET_MODULES) * QR_MODULE_PX;
    let left = if c.w - side >= 0 { (c.w - side) / 2 } else { -((side - c.w) / 2) };
    let top = if c.h - side >= 0 { (c.h - side) / 2 } else { -((side - c.h) / 2) };
    let (w, h) = (c.w, c.h);
    c.fill_rect(0, 0, w, h, BG_APP);
    let ghost card = c.px@;
    assert(card =~= filled(prior, bw, by0, 0, 0, w as int, h as int, BG_APP));
    c.fill_round_rect(left, top, side, side, 12, QR_LIGHT);
    let ghost light = c.px@;
    let (ox, oy) = (left + QR_QUIET_MODULES * QR_MODULE_PX, top + QR_QUIET_MODULES * QR_MODULE_PX);
    proof {
        lemma_grid(bw, by0, c.rows as int);
    }
    let from = c.y0 - oy;
    let to = c.y0 + c.rows - oy;
    let first_row: i32 = if from >= 0 { from / 6 } else { -((-from) / 6) };
    let last_row: i32 = (if to >= 0 { to / 6 } else { -((-to) / 6) }) + 1;
    let first: usize = if first_row > 0 { first_row as usize } else { 0 };
    let last: usize = if last_row <= 0 { 0 } else if last_row > 57 { 57 } else { last_row as usize };
    proof {
        assert forall|i: int| 0 <= i < prior.len() && line(bw, by0, i) - oy >= 0 implies (#[trigger] line(bw, by0, i) - oy) / 6 >= first by {
            assert(0 <= column(bw, i) < bw);
            assert(line(bw, by0, i) >= by0);
        }
        assert forall|i: int| 0 <= i < prior.len() && 0 <= line(bw, by0, i) - oy < 342 implies (#[trigger] line(bw, by0, i) - oy) / 6 < last by {
            assert(0 <= column(bw, i) < bw);
            assert(line(bw, by0, i) < by0 + c.rows);
        }
    }
    let mut module_y: usize = first;
    while module_y < last
        invariant
            c.same_band(old(c)),
            old(c).wf(),
            c.wf(),
            bw == c.w,
            by0 == c.y0,
            c.px@.len() == prior.len(),
            light.len() == prior.len(),
            -0x100_0000 <= ox <= 0x100_0000,
            -0x100_0000 <= oy <= 0x100_0000,
            first <= module_y,
            module_y <= last || module_y == first,
            last <= 57,
            forall|i: int| 0 <= i < prior.len() && line(bw, by0, i) - oy >= 0 ==> (#[trigger] line(bw, by0, i) - oy) / 6 >= first,
            forall|i: int| 0 <= i < prior.len() && 0 <= line(bw, by0, i) - oy < 342 ==> (#[trigger] line(bw, by0, i) - oy) / 6 < last,
            forall|i: int|
                0 <= i < prior.len() ==> 0 <= #[trigger] column(bw, i) < bw && by0 <= line(bw, by0, i) < by0 + c.rows
                    && spot(bw, by0, column(bw, i), line(bw, by0, i)) == i,
            forall|i: int|
                0 <= i < prior.len() ==> #[trigger] c.px@[i] == (if in_dark_module(qr, column(bw, i), line(bw, by0, i), ox as int, oy as int)
                    && (line(bw, by0, i) - oy) / 6 < module_y {
                    QR_DARK
                } else {
                    light[i]
                }),
        decreases last - module_y,
    {
        let mut module_x: usize = 0;
        while module_x < 57
            invariant
                c.same_band(old(c)),
                old(c).wf(),
                c.wf(),
                bw == c.w,
                by0 == c.y0,
                c.px@.len() == prior.len(),
                light.len() == prior.len(),
                -0x100_0000 <= ox <= 0x100_0000,
                -0x100_0000 <= oy <= 0x100_0000,
                module_y < last <= 57,
                module_x <= 57,
                forall|i: int|
                    0 <= i < prior.len() ==> 0 <= #[trigger] column(bw, i) < bw && by0 <= line(bw, by0, i) < by0 + c.rows
                        && spot(bw, by0, column(bw, i), line(bw, by0, i)) == i,
                forall|i: int|
                    0 <= i < prior.len() ==> #[trigger] c.px@[i] == (if in_dark_module(qr, column(bw, i), line(bw, by0, i), ox as int, oy as int)
                        && before((line(bw, by0, i) - oy) / 6, (column(bw, i) - ox) / 6, module_y as int, module_x as int) {
                        QR_DARK
                    } else {
                        light[i]
                    }),
            decreases 57 - module_x,
        {
            if qr.is_dark(module_x, module_y) {
                let (x, y) = (ox + module_x as i32 * QR_MODULE_PX, oy + module_y as i32 * QR_MODULE_PX);
                c.fill_rect(x, y, QR_MODULE_PX, QR_MODULE_PX, QR_DARK);
            }
            module_x = module_x + 1;
        }
        module_y = module_y + 1;
    }
    proof {
        assert forall|i: int| 0 <= i < prior.len() implies #[trigger] c.px@[i] == qr_drawn(qr, prior, bw, by0, w as int, h as int)[i] by {
            let row = line(bw, by0, i);
            if in_dark_module(qr, column(bw, i), row, ox as int, oy as int) {
                assert((row - oy) / 6 < module_y);
            }
        }
        assert(c.px@ =~= qr_drawn(qr, prior, bw, by0, w as int, h as int));
    }
    proof {
        reveal_strlit("Conecte o ZapZap ao WhatsApp");
        reveal_strlit("Abra o WhatsApp > Aparelhos conectados > Conectar um aparelho");
    }
    centered(c, font, w / 2, top - 28, TITLE, TEXT_PRIMARY, "Conecte o ZapZap ao WhatsApp");
    centered(c, font, w / 2, top + side + 32, PREVIEW, TEXT_SECONDARY, "Abra o WhatsApp > Aparelhos conectados > Conectar um aparelho");
}

} // verus!
