//! The messages of the chat screen: finding one by its id, the height of its bubble, where the
//! bubbles of the open conversation go, and how far the conversation scrolls.

use vstd::prelude::*;
use crate::chat::{Chat, sent};
use crate::font::{Font, text_pixels, measure, MEASURE_MAX};
use crate::items::{Message, MAX_CHATS, MESSAGE_CAPACITY, NAME_CAPACITY, ID_CAPACITY, block_of};
use crate::layout::{BODY, META, HEADER_H, INPUT_H, BLOCK_MAX_H, can_measure, shape_of, bubble_shape, max};
use crate::screen::{Store, Scroll, Marks, Boxes, message_wf, MAX_MESSAGES};

verus! {

/// Room a bubble needs under it for its reactions pill.
pub const REACTION_H: i32 = 14;
/// Height of the bar over the footer while a reply is being written.
pub const REPLY_BAR_H: i32 = 60;
/// Room above the first bubble for the date chip.
pub const CONVERSATION_TOP: i32 = 52;
pub const CONVERSATION_BOTTOM: i32 = 16;
/// The row a day chip takes above the first message of a day (chip 26 px high, 14 above and 12 below).
pub const DAY_CHIP_ROW: i32 = 38;
pub const SAME_SENDER_GAP: i32 = 3;
pub const OTHER_SENDER_GAP: i32 = 12;
pub const CONVERSATION_SCROLL_STEP: i32 = 60;

/// The first message of `chat` with connection id `id`, from message `k` on.
pub open spec fn id_from(messages: Seq<Message>, chat: u8, id: Seq<char>, k: int) -> Option<int>
    decreases messages.len() - k,
{
    if k < 0 || k >= messages.len() {
        None
    } else if messages[k].chat == chat && messages[k].id@ == id {
        Some(k)
    } else {
        id_from(messages, chat, id, k + 1)
    }
}

/// The first message of `chat` with connection id `id` (an empty id names none).
pub open spec fn id_position(messages: Seq<Message>, chat: u8, id: Seq<char>) -> Option<int> {
    if id.len() > 0 { id_from(messages, chat, id, 0) } else { None }
}

proof fn lemma_id_from_bounds(messages: Seq<Message>, chat: u8, id: Seq<char>, k: int)
    ensures
        id_from(messages, chat, id, k) matches Some(i) ==> 0 <= i < messages.len(),
    decreases messages.len() - k,
{
    if 0 <= k < messages.len() {
        lemma_id_from_bounds(messages, chat, id, k + 1);
    }
}

/// Who a message is from, as its quote shows: "Você", or the conversation's name.
pub open spec fn author(store: &Store, m: Message) -> Seq<char> {
    if m.outgoing { "Você"@ } else { store.conversations@[m.chat as int].name@ }
}

/// Width the quote block of `m` needs: the quoted text or its author, whichever is wider, and some
/// room, within the text limit; 0 when it quotes nothing we have.
pub open spec fn quote_width(font: &Font, store: &Store, text_limit: int, m: Message) -> int {
    match id_position(store.messages@, m.chat, m.reply@) {
        None => 0,
        Some(q) => {
            let quoted = store.messages@[q];
            let wide = max(text_pixels(font, quoted.text@, BODY), text_pixels(font, author(store, quoted), META)) + 28;
            if wide < text_limit { wide } else { text_limit }
        },
    }
}

/// The height a message takes: its bubble, the quote it holds and the reactions under it.
pub open spec fn height_of(font: &Font, store: &Store, text_limit: int, m: Message) -> u16 {
    let block = block_of(m.kind, m.media_w as int, m.media_h as int);
    let shape = shape_of(font, m.text@, m.time@, m.outgoing, m.starred, text_limit, quote_width(font, store, text_limit, m), block);
    (shape.1 + if m.tally[0] != 0 { REACTION_H as int } else { 0 }) as u16
}

/// The bubbles of conversation `selected` from message `k` on, after a bubble from `previous` (we
/// sent it, or not) of day `previous_day`, starting at `y`: their numbers, top edges and whether
/// each starts a new run from the same sender; and where the content ends.
pub open spec fn placed(messages: Seq<Message>, selected: int, k: int, previous: Option<bool>, previous_day: Option<u16>, y: int)
    -> (Seq<(int, int, bool)>, int)
    decreases messages.len() - k,
{
    if k < 0 || k >= messages.len() {
        (Seq::empty(), (if previous is None { y + DAY_CHIP_ROW } else { y }) + CONVERSATION_BOTTOM)
    } else if messages[k].chat as int != selected {
        placed(messages, selected, k + 1, previous, previous_day, y)
    } else {
        let m = messages[k];
        let new_day = previous_day != Some(m.day);
        let starts_run = new_day || previous != Some(m.outgoing);
        let gap = if previous is Some { if starts_run { OTHER_SENDER_GAP as int } else { SAME_SENDER_GAP as int } } else { 0 };
        let top = y + gap + if new_day { DAY_CHIP_ROW as int } else { 0 };
        let (rest, end) = placed(messages, selected, k + 1, Some(m.outgoing), Some(m.day), top + m.height);
        (seq![(k, top, starts_run)] + rest, end)
    }
}

/// The bubbles of the open conversation and the content height.
pub open spec fn layout_of(chat: &Chat) -> (Seq<(int, int, bool)>, int) {
    placed(chat.store.messages@, chat.screen.selected as int, 0, None, None, (CONVERSATION_TOP - DAY_CHIP_ROW) as int)
}

/// The height the conversation shows between the header and the footer (and the reply bar).
pub open spec fn viewport_of(chat: &Chat) -> int {
    chat.scroll.window_height - HEADER_H - INPUT_H
        - (if id_position(chat.store.messages@, chat.screen.selected as u8, chat.boxes.reply_to@) is Some { REPLY_BAR_H } else { 0 })
}

/// The bubbles as `int`s.
pub open spec fn int_bubbles(rows: Seq<(usize, i32, bool)>) -> Seq<(int, int, bool)> {
    rows.map_values(|r: (usize, i32, bool)| (r.0 as int, r.1 as int, r.2))
}

impl Chat {
    /// The message of `chat` with connection id `id`.
    pub fn message_with_id(&self, chat: u8, id: &str) -> (found: Option<usize>)
        ensures
            found matches Some(i) ==> i < self.store.messages@.len(),
            match found {
                Some(i) => id_position(self.store.messages@, chat, id@) == Some(i as int),
                None => id_position(self.store.messages@, chat, id@) is None,
            },
    {
        if id.unicode_len() == 0 {
            return None;
        }
        let messages = &self.store.messages;
        let mut i: usize = 0;
        proof { lemma_id_from_bounds(messages@, chat, id@, 0); }
        while i < messages.len()
            invariant
                0 <= i <= messages@.len(),
                messages@ == self.store.messages@,
                id@.len() > 0,
                id_from(messages@, chat, id@, 0) == id_from(messages@, chat, id@, i as int),
            decreases messages@.len() - i,
        {
            if messages[i].chat == chat && crate::text::same_chars(chars_of_str(messages[i].id.as_str()).as_slice(), chars_of_str(id).as_slice()) {
                return Some(i);
            }
            i = i + 1;
        }
        None
    }

    /// Who a message is from, as its quote shows: "Você", or the conversation's name.
    pub fn author_of(&self, message: &Message) -> (name: &str)
        requires
            self.wf(),
            message.chat < MAX_CHATS,
        ensures
            name@ == author(&self.store, *message),
            name@.len() <= NAME_CAPACITY,
    {
        proof { reveal_strlit("Você"); }
        if message.outgoing {
            "Você"
        } else {
            self.store.conversations[message.chat as usize].name.as_str()
        }
    }

    pub fn conversation_name(&self, chat: usize) -> (name: &str)
        requires
            self.wf(),
            chat < MAX_CHATS,
        ensures
            name@ == self.store.conversations@[chat as int].name@,
    {
        self.store.conversations[chat].name.as_str()
    }

    /// The message that `message` answers, when it is one we still have.
    pub fn quoted_by(&self, message: &Message) -> (quoted: Option<&Message>)
        ensures
            match id_position(self.store.messages@, message.chat, message.reply@) {
                Some(q) => quoted == Some(&self.store.messages@[q]),
                None => quoted is None,
            },
    {
        match self.message_with_id(message.chat, message.reply.as_str()) {
            Some(found) => Some(&self.store.messages[found]),
            None => None,
        }
    }

    /// Width the quote block of `message` needs (0 when it quotes nothing we have).
    #[verifier::spinoff_prover]
    #[verifier::rlimit(40)]
    pub fn quote_width_of(&self, message: &Message) -> (width: i32)
        requires
            self.wf(),
        ensures
            width == quote_width(&self.font, &self.store, self.scroll.text_limit as int, *message),
            -0x1000_0000 <= width <= 0x1000_0000,
    {
        match self.message_with_id(message.chat, message.reply.as_str()) {
            None => 0,
            Some(found) => {
                let quoted = &self.store.messages[found];
                assert(message_wf(self.store.messages@[found as int]));
                let text = measure(&self.font, quoted.text.as_str(), BODY);
                let who = measure(&self.font, self.author_of(quoted), META);
                let wide = (if text >= who { text } else { who }) + 28;
                if wide < self.scroll.text_limit { wide } else { self.scroll.text_limit }
            },
        }
    }

    /// Message number `index` among all the messages.
    pub fn index_message(&self, index: usize) -> (message: &Message)
        requires
            index < self.store.messages@.len(),
        ensures
            *message == self.store.messages@[index as int],
    {
        &self.store.messages[index]
    }

    /// The height message `index` takes at the current width.
    #[verifier::spinoff_prover]
    #[verifier::rlimit(40)]
    pub fn recompute_height(&mut self, index: usize)
        requires
            old(self).wf(),
            index < old(self).store.messages@.len(),
        ensures
            final(self).wf(),
            final(self).store.messages@ == old(self).store.messages@.update(index as int,
                Message { height: height_of(&old(self).font, &old(self).store, old(self).scroll.text_limit as int, old(self).store.messages@[index as int]),
                    ..old(self).store.messages@[index as int] }),
            final(self).store.messages@[index as int].height
                == height_of(&final(self).font, &final(self).store, final(self).scroll.text_limit as int, final(self).store.messages@[index as int]),
            *final(self) == (Chat { store: Store { messages: final(self).store.messages, ..old(self).store }, ..*old(self) }),
    {
        let quote = self.quote_width_of(&self.store.messages[index]);
        let message = &self.store.messages[index];
        assert(message_wf(self.store.messages@[index as int]));
        let block = message.block();
        let shape = bubble_shape(&self.font, message.text.as_str(), message.time.as_str(), message.outgoing, message.starred,
            self.scroll.text_limit, quote, block);
        let reactions: i32 = if message.tally[0] != 0 { REACTION_H } else { 0 };
        let height: u16 = (shape.height + reactions) as u16;
        self.store.messages[index].height = height;
        proof {
            let m = old(self).store.messages@[index as int];
            lemma_id_position_heights(old(self).store.messages@, index as int, height, m.chat, m.reply@, 0);
            let m2 = self.store.messages@[index as int];
            assert(m2 == Message { height, ..m });
            assert(id_position(self.store.messages@, m2.chat, m2.reply@) == id_position(old(self).store.messages@, m.chat, m.reply@));
            match id_position(old(self).store.messages@, m.chat, m.reply@) {
                Some(q) => {
                    lemma_id_from_bounds(old(self).store.messages@, m.chat, m.reply@, 0);
                    assert(self.store.messages@[q].text == old(self).store.messages@[q].text);
                    assert(author(&self.store, self.store.messages@[q]) == author(&old(self).store, old(self).store.messages@[q]));
                },
                None => {},
            }
            assert(quote_width(&self.font, &self.store, self.scroll.text_limit as int, m2)
                == quote_width(&old(self).font, &old(self).store, old(self).scroll.text_limit as int, m));
            assert(self.store.messages@ =~= old(self).store.messages@.update(index as int,
                Message { height: height_of(&old(self).font, &old(self).store, old(self).scroll.text_limit as int, old(self).store.messages@[index as int]),
                    ..old(self).store.messages@[index as int] }));
            assert forall|i: int| 0 <= i < self.store.messages@.len() implies message_wf(#[trigger] self.store.messages@[i]) by {
                assert(message_wf(old(self).store.messages@[i]));
            }
        }
    }

    /// Visits the bubbles of the open conversation with their top edge inside the scrolling
    /// content, and whether each one starts a new run from the same sender. Returns the content height.
    pub fn place(&self) -> (placed: (Vec<(usize, i32, bool)>, i32))
        requires
            self.wf(),
        ensures
            (int_bubbles(placed.0@), placed.1 as int) == layout_of(self),
            0 <= placed.1 <= 0x200_0000,
            forall|j: int| 0 <= j < placed.0@.len() ==> 0 <= #[trigger] placed.0@[j].1 <= 0x200_0000,
    {
        let messages = &self.store.messages;
        let selected = self.screen.selected;
        let mut rows: Vec<(usize, i32, bool)> = Vec::new();
        let mut y: i32 = CONVERSATION_TOP - DAY_CHIP_ROW;
        let mut previous: Option<bool> = None;
        let mut previous_day: Option<u16> = None;
        let mut k: usize = 0;
        while k < messages.len()
            invariant
                0 <= k <= messages@.len(),
                messages@ == self.store.messages@,
                messages@.len() <= MAX_MESSAGES,
                selected == self.screen.selected,
                14 <= y <= 14 + (k as int) * 65600,
                forall|j: int| 0 <= j < rows@.len() ==> 0 <= #[trigger] rows@[j].1 <= 0x200_0000,
                ({
                    let (rest, end) = placed(messages@, selected as int, k as int, previous, previous_day, y as int);
                    int_bubbles(rows@) + rest == layout_of(self).0 && end == layout_of(self).1
                }),
            decreases messages@.len() - k,
        {
            let message = &messages[k];
            if message.chat as usize == selected {
                let new_day = match previous_day { Some(day) => day != message.day, None => true };
                let starts_run = new_day || match previous { Some(outgoing) => outgoing != message.outgoing, None => true };
                if previous.is_some() {
                    y = y + if starts_run { OTHER_SENDER_GAP } else { SAME_SENDER_GAP };
                }
                if new_day {
                    y = y + DAY_CHIP_ROW;
                }
                let ghost before = int_bubbles(rows@);
                rows.push((k, y, starts_run));
                assert(int_bubbles(rows@) =~= before.push((k as int, y as int, starts_run)));
                y = y + message.height as i32;
                previous = Some(message.outgoing);
                previous_day = Some(message.day);
            }
            k = k + 1;
        }
        if previous.is_none() {
            y = y + DAY_CHIP_ROW;
        }
        assert(int_bubbles(rows@) =~= layout_of(self).0);
        (rows, y + CONVERSATION_BOTTOM)
    }

    /// Height of the bar above the footer that shows the message being answered.
    pub fn reply_bar_h(&self) -> (height: i32)
        ensures
            height == (if id_position(self.store.messages@, self.screen.selected as u8, self.boxes.reply_to@) is Some { REPLY_BAR_H } else { 0 }),
    {
        if self.message_with_id(self.screen.selected as u8, self.boxes.reply_to.as_str()).is_some() { REPLY_BAR_H } else { 0 }
    }

    /// The message being answered, if a reply is being written.
    pub fn replying_to(&self) -> (message: Option<&Message>)
        ensures
            match id_position(self.store.messages@, self.screen.selected as u8, self.boxes.reply_to@) {
                Some(q) => message == Some(&self.store.messages@[q]),
                None => message is None,
            },
    {
        match self.message_with_id(self.screen.selected as u8, self.boxes.reply_to.as_str()) {
            Some(index) => Some(&self.store.messages[index]),
            None => None,
        }
    }

    /// The height the conversation shows between the header and the footer.
    pub fn viewport_height(&self) -> (height: i32)
        requires
            self.wf(),
        ensures
            height == viewport_of(self),
            -0x100 <= height <= 0x100_0000,
    {
        self.scroll.window_height - HEADER_H - INPUT_H - self.reply_bar_h()
    }
}

/// The characters of `s`.
fn chars_of_str(s: &str) -> (chars: Vec<char>)
    ensures
        chars@ == s@,
{
    crate::text::chars_of(s)
}

/// Changing how tall a message is does not change which message an id names.
pub proof fn lemma_id_position_heights(messages: Seq<Message>, i: int, h: u16, chat: u8, id: Seq<char>, k: int)
    requires
        0 <= i < messages.len(),
    ensures
        id_from(messages.update(i, Message { height: h, ..messages[i] }), chat, id, k) == id_from(messages, chat, id, k),
    decreases messages.len() - k,
{
    if 0 <= k < messages.len() {
        lemma_id_position_heights(messages, i, h, chat, id, k + 1);
    }
}


/// Each bubble of the layout is a message of the open conversation, in order from message `k` on.
pub proof fn lemma_placed_rows(messages: Seq<Message>, selected: int, k: int, previous: Option<bool>, previous_day: Option<u16>, y: int)
    requires
        0 <= k,
    ensures
        forall|j: int| 0 <= j < placed(messages, selected, k, previous, previous_day, y).0.len() ==> {
            let r = #[trigger] placed(messages, selected, k, previous, previous_day, y).0[j];
            k <= r.0 < messages.len() && messages[r.0].chat as int == selected
        },
    decreases messages.len() - k,
{
    if k < messages.len() {
        if messages[k].chat as int != selected {
            lemma_placed_rows(messages, selected, k + 1, previous, previous_day, y);
        } else {
            let m = messages[k];
            let new_day = previous_day != Some(m.day);
            let starts_run = new_day || previous != Some(m.outgoing);
            let gap = if previous is Some { if starts_run { OTHER_SENDER_GAP as int } else { SAME_SENDER_GAP as int } } else { 0 };
            let top = y + gap + if new_day { DAY_CHIP_ROW as int } else { 0 };
            lemma_placed_rows(messages, selected, k + 1, Some(m.outgoing), Some(m.day), top + m.height);
        }
    }
}


/// Two messages alike but for their heights.
pub open spec fn same_but_height(a: Message, b: Message) -> bool {
    a == Message { height: a.height, ..b }
}

proof fn lemma_id_from_alike(a: Seq<Message>, b: Seq<Message>, chat: u8, id: Seq<char>, k: int)
    requires
        a.len() == b.len(),
        forall|i: int| 0 <= i < a.len() ==> same_but_height(#[trigger] a[i], b[i]),
    ensures
        id_from(a, chat, id, k) == id_from(b, chat, id, k),
    decreases a.len() - k,
{
    if 0 <= k < a.len() {
        assert(same_but_height(a[k], b[k]));
        lemma_id_from_alike(a, b, chat, id, k + 1);
    }
}

/// The height a message takes does not depend on the heights the other messages have.
pub proof fn lemma_height_alike(font: &Font, s1: &Store, s2: &Store, text_limit: int, m: Message)
    requires
        s1.messages@.len() == s2.messages@.len(),
        forall|i: int| 0 <= i < s1.messages@.len() ==> same_but_height(#[trigger] s1.messages@[i], s2.messages@[i]),
        s1.conversations@ == s2.conversations@,
    ensures
        height_of(font, s1, text_limit, m) == height_of(font, s2, text_limit, m),
{
    lemma_id_from_alike(s1.messages@, s2.messages@, m.chat, m.reply@, 0);
    lemma_id_from_bounds(s1.messages@, m.chat, m.reply@, 0);
    match id_position(s1.messages@, m.chat, m.reply@) {
        Some(q) => {
            assert(same_but_height(s1.messages@[q], s2.messages@[q]));
            assert(author(s1, s1.messages@[q]) == author(s2, s2.messages@[q]));
        },
        None => {},
    }
    assert(quote_width(font, s1, text_limit, m) == quote_width(font, s2, text_limit, m));
}

} // verus!
