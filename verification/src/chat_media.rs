//! Photos, videos, voice messages and documents in messages: what they carry, their preview
//! pictures (asked for one at a time, arriving a row at a time), and the older messages of the open
//! conversation, asked for when the view reaches its top.

use vstd::prelude::*;
use crate::chat::{Chat, sent};
use crate::chat_dialogs::send_line;
use crate::chat_flow::{kept_messages, fresh, message_day, delivery_of};
use crate::chat_messages::{id_position, height_of, layout_of, viewport_of, lemma_placed_rows};
use crate::chat_actions::replaced;
use crate::items::{Message, Delivery, Tab, MAX_CHATS, LABEL_CAPACITY, MEDIA_IMAGE, MEDIA_VIDEO, block_of, store, stamp_of, stamp_day};
use crate::layout::HEADER_H;
use crate::screen::{Store, Thumbs, Marks, Scroll, message_wf, THUMB_SLOTS, THUMB_SIDE, THUMB_PIXELS};
use crate::text::{fit, byte_len, lemma_fit, string_of, chars_of};
use crate::field::lemma_bytes_bound_len;

verus! {

/// The messages after the preview slot `slot` is given to another one: those that showed it go back
/// to "not asked for".
pub open spec fn released(messages: Seq<Message>, slot: u8) -> Seq<Message> {
    Seq::new(messages.len(), |i: int| if messages[i].thumb == 2 && messages[i].slot == slot {
        Message { thumb: 0, ..messages[i] }
    } else {
        messages[i]
    })
}

/// The value of a hexadecimal digit (either case); 0 for anything else.
pub open spec fn hex_value(b: u8) -> int {
    if 48 <= b <= 57 { b - 48 } else if 97 <= b <= 102 { b - 87 } else if 65 <= b <= 70 { b - 55 } else { 0 }
}

/// Pixel `column` of a row written as hex of little-endian RGB565 (four digits a pixel).
pub open spec fn pixel_at(hex: Seq<u8>, column: int) -> u16 {
    let at = column * 4;
    let low = hex_value(hex[at]) * 16 + hex_value(hex[at + 1]);
    let high = hex_value(hex[at + 2]) * 16 + hex_value(hex[at + 3]);
    (high * 256 + low) as u16
}

/// The pool slot after row `row` (of `width` pixels) arrived.
pub open spec fn row_written(pixels: Seq<u16>, row: int, width: int, hex: Seq<u8>) -> Seq<u16> {
    Seq::new(pixels.len(), |i: int| if row * THUMB_SIDE <= i < row * THUMB_SIDE + width { pixel_at(hex, i - row * THUMB_SIDE) } else { pixels[i] })
}

/// Whether the bubble of `m`, with its top edge at `y`, is a photo or video on screen between `top`
/// and `bottom` whose preview was never asked for.
pub open spec fn wants_preview(m: Message, y: int, top: int, bottom: int) -> bool {
    &&& m.thumb == 0 && m.id@.len() > 0 && (m.kind == MEDIA_IMAGE || m.kind == MEDIA_VIDEO)
    &&& y + block_of(m.kind, m.media_w as int, m.media_h as int).1 >= top && y <= bottom
}

/// The first bubble from row `k` of the layout `rows` on that wants its preview.
pub open spec fn wanted_from(rows: Seq<(int, int, bool)>, messages: Seq<Message>, top: int, bottom: int, k: int) -> Option<int>
    decreases rows.len() - k,
{
    if k < 0 || k >= rows.len() {
        None
    } else if wants_preview(messages[rows[k].0], rows[k].1, top, bottom) {
        Some(rows[k].0)
    } else {
        wanted_from(rows, messages, top, bottom, k + 1)
    }
}

/// The first message of `chat` from message `k` on that has an id.
pub open spec fn first_with_id(messages: Seq<Message>, chat: int, k: int) -> Option<int>
    decreases messages.len() - k,
{
    if k < 0 || k >= messages.len() {
        None
    } else if messages[k].chat as int == chat && messages[k].id@.len() > 0 {
        Some(k)
    } else {
        first_with_id(messages, chat, k + 1)
    }
}

/// The first message of `chat`.
pub open spec fn first_of(messages: Seq<Message>, chat: int, k: int) -> Option<int>
    decreases messages.len() - k,
{
    if k < 0 || k >= messages.len() {
        None
    } else if messages[k].chat as int == chat {
        Some(k)
    } else {
        first_of(messages, chat, k + 1)
    }
}

/// The messages with the last one moved before the first message of its conversation.
pub open spec fn moved_first(messages: Seq<Message>) -> Seq<Message> {
    let rest = messages.drop_last();
    match first_of(rest, messages.last().chat as int, 0) {
        Some(f) => rest.take(f) + seq![messages.last()] + rest.skip(f),
        None => messages,
    }
}

proof fn lemma_first_of_bounds(messages: Seq<Message>, chat: int, k: int)
    ensures
        first_of(messages, chat, k) matches Some(i) ==> k <= i < messages.len() && messages[i].chat as int == chat,
    decreases messages.len() - k,
{
    if 0 <= k < messages.len() {
        lemma_first_of_bounds(messages, chat, k + 1);
    }
}

proof fn lemma_first_with_id_bounds(messages: Seq<Message>, chat: int, k: int)
    ensures
        first_with_id(messages, chat, k) matches Some(i) ==> k <= i < messages.len() && messages[i].chat as int == chat
            && messages[i].id@.len() > 0,
    decreases messages.len() - k,
{
    if 0 <= k < messages.len() {
        lemma_first_with_id_bounds(messages, chat, k + 1);
    }
}

proof fn lemma_wanted_bounds(rows: Seq<(int, int, bool)>, messages: Seq<Message>, top: int, bottom: int, k: int)
    ensures
        wanted_from(rows, messages, top, bottom, k) matches Some(w) ==> exists|j: int| k <= j < rows.len() && #[trigger] rows[j].0 == w,
    decreases rows.len() - k,
{
    if 0 <= k < rows.len() {
        lemma_wanted_bounds(rows, messages, top, bottom, k + 1);
    }
}

/// The line `head`, the conversation number, a tab and `text`, as `SEND` and the like write it.
pub fn command_line(head: &str, chat: usize, text: &str) -> (line: String)
    requires
        chat < 100,
    ensures
        line@ == send_line(head@, chat as int, text@),
{
    let mut chars = chars_of(head);
    if chat >= 10 {
        chars.push(crate::text::digit_char((chat / 10) as u64));
    }
    chars.push(crate::text::digit_char((chat % 10) as u64));
    chars.push('\t');
    let tail = chars_of(text);
    let mut i: usize = 0;
    let ghost start = chars@;
    while i < tail.len()
        invariant
            0 <= i <= tail@.len(),
            chars@ == start + tail@.take(i as int),
        decreases tail@.len() - i,
    {
        chars.push(tail[i]);
        i = i + 1;
        assert(chars@ =~= start + tail@.take(i as int));
    }
    assert(tail@.take(tail@.len() as int) =~= tail@);
    assert(start =~= head@ + crate::chat::chat_number(chat as int) + seq!['\t']);
    string_of(chars.as_slice())
}

fn release_slot(messages: &mut Vec<Message>, slot: u8)
    ensures
        final(messages)@ == released(old(messages)@, slot),
{
    let mut i: usize = 0;
    while i < messages.len()
        invariant
            0 <= i <= messages@.len(),
            messages@.len() == old(messages)@.len(),
            forall|j: int| 0 <= j < i ==> messages@[j] == #[trigger] released(old(messages)@, slot)[j],
            forall|j: int| i <= j < messages@.len() ==> messages@[j] == old(messages)@[j],
        decreases messages@.len() - i,
    {
        if messages[i].thumb == 2 && messages[i].slot == slot {
            messages[i].thumb = 0;
        }
        i = i + 1;
    }
    assert(messages@ =~= released(old(messages)@, slot));
}

fn write_row(pixels: &mut Vec<u16>, row: usize, width: usize, hex: &[u8])
    requires
        old(pixels)@.len() == THUMB_PIXELS,
        row < THUMB_SIDE,
        width <= THUMB_SIDE,
        hex@.len() >= width * 4,
    ensures
        final(pixels)@ == row_written(old(pixels)@, row as int, width as int, hex@),
{
    let mut column: usize = 0;
    while column < width
        invariant
            0 <= column <= width <= THUMB_SIDE,
            row < THUMB_SIDE,
            hex@.len() >= width * 4,
            pixels@.len() == THUMB_PIXELS,
            forall|i: int| 0 <= i < pixels@.len() ==> #[trigger] pixels@[i] == (if row * THUMB_SIDE <= i < row * THUMB_SIDE + column {
                pixel_at(hex@, i - row * THUMB_SIDE) } else { old(pixels)@[i] }),
        decreases width - column,
    {
        let at = column * 4;
        let low: u16 = hex_digit(hex[at]) * 16 + hex_digit(hex[at + 1]);
        let high: u16 = hex_digit(hex[at + 2]) * 16 + hex_digit(hex[at + 3]);
        let pixel: u16 = high * 256 + low;
        pixels.set(row * THUMB_SIDE + column, pixel);
        column = column + 1;
    }
    assert(pixels@ =~= row_written(old(pixels)@, row as int, width as int, hex@));
}

fn hex_digit(b: u8) -> (value: u16)
    ensures
        value == hex_value(b),
        value < 16,
{
    if 48 <= b && b <= 57 { (b - 48) as u16 } else if 97 <= b && b <= 102 { (b - 87) as u16 } else if 65 <= b && b <= 70 { (b - 55) as u16 } else { 0 }
}

impl Chat {
    /// Message `id` of `chat` carries something besides text (`MEDIA`): its kind, the picture's size
    /// (at most 65535 a side) and a label; its bubble takes the height that needs.
    #[verifier::spinoff_prover]
    pub fn set_media(&mut self, chat: usize, id: &str, kind: u8, width: u32, height: u32, label: &str)
        requires
            old(self).wf(),
        ensures
            final(self).wf(),
            id_position(old(self).store.messages@, chat as u8, id@) is None ==> *final(self) == *old(self),
            id_position(old(self).store.messages@, chat as u8, id@) matches Some(i) ==> ({
                let before = old(self).store.messages@[i];
                let after = final(self).store.messages@[i];
                &&& after.label@ == fit(label@, LABEL_CAPACITY as nat)
                &&& replaced(old(self).store.messages@, final(self).store.messages@, i, Message { kind,
                    media_w: if width > 65535 { 65535u16 } else { width as u16 },
                    media_h: if height > 65535 { 65535u16 } else { height as u16 },
                    label: after.label, height: after.height, ..before })
                &&& after.height == height_of(&final(self).font, &final(self).store, final(self).scroll.text_limit as int, after)
                &&& *final(self) == (Chat { store: Store { messages: final(self).store.messages, ..old(self).store }, ..*old(self) })
            }),
    {
        let index = match self.message_with_id(chat as u8, id) {
            Some(index) => index,
            None => return,
        };
        proof {
            lemma_fit(label@, LABEL_CAPACITY as nat);
            lemma_bytes_bound_len(fit(label@, LABEL_CAPACITY as nat));
        }
        self.store.messages[index].kind = kind;
        self.store.messages[index].media_w = if width > 65535 { 65535 } else { width as u16 };
        self.store.messages[index].media_h = if height > 65535 { 65535 } else { height as u16 };
        self.store.messages[index].label = store(label, LABEL_CAPACITY);
        proof {
            assert forall|i: int| 0 <= i < self.store.messages@.len() implies message_wf(#[trigger] self.store.messages@[i]) by {
                assert(message_wf(old(self).store.messages@[i]));
            }
        }
        let ghost middle = self.store.messages@;
        self.recompute_height(index);
        assert(self.store.messages@[index as int].label == middle[index as int].label);
    }

    /// The preview picture of message `id` starts arriving (`THUMB`), `width` by `height` pixels: it
    /// takes the next slot of the pool, and whoever held that slot has to ask again. A size of 0 or
    /// over `THUMB_SIDE` gives up on it (the next one can be asked for).
    #[verifier::spinoff_prover]
    pub fn thumb_start(&mut self, chat: usize, id: &str, width: usize, height: usize)
        requires
            old(self).wf(),
        ensures
            final(self).wf(),
            id_position(old(self).store.messages@, chat as u8, id@) is None ==> *final(self) == *old(self),
            id_position(old(self).store.messages@, chat as u8, id@) matches Some(i) ==> {
                if width == 0 || height == 0 || width > THUMB_SIDE || height > THUMB_SIDE {
                    *final(self) == (Chat { thumbs: Thumbs { asked: 0, ..old(self).thumbs }, ..*old(self) })
                } else {
                    let slot = (old(self).thumbs.next as int % THUMB_SLOTS as int) as u8;
                    let freed = released(old(self).store.messages@, slot);
                    &&& final(self).store.messages@ == freed.update(i, Message { slot, thumb: 1, ..freed[i] })
                    &&& final(self).thumbs.sizes@ == old(self).thumbs.sizes@.update(slot as int, (width as u8, height as u8))
                    &&& final(self).thumbs == (Thumbs { sizes: final(self).thumbs.sizes,
                        next: ((slot as int + 1) % THUMB_SLOTS as int) as u8, ..old(self).thumbs })
                    &&& *final(self) == (Chat { store: Store { messages: final(self).store.messages, ..old(self).store },
                        thumbs: final(self).thumbs, ..*old(self) })
                }
            },
    {
        let index = match self.message_with_id(chat as u8, id) {
            Some(index) => index,
            None => return,
        };
        if width == 0 || height == 0 || width > THUMB_SIDE || height > THUMB_SIDE {
            self.thumbs.asked = 0;
            return;
        }
        let slot: u8 = ((self.thumbs.next as usize) % THUMB_SLOTS) as u8;
        self.thumbs.next = (((slot as usize) + 1) % THUMB_SLOTS) as u8;
        release_slot(&mut self.store.messages, slot);
        self.thumbs.sizes.set(slot as usize, (width as u8, height as u8));
        self.store.messages[index].slot = slot;
        self.store.messages[index].thumb = 1;
        proof {
            let freed = released(old(self).store.messages@, slot);
            assert(self.store.messages@ =~= freed.update(index as int, Message { slot, thumb: 1, ..freed[index as int] }));
            assert forall|i: int| 0 <= i < self.store.messages@.len() implies message_wf(#[trigger] self.store.messages@[i]) by {
                assert(message_wf(old(self).store.messages@[i]));
            }
        }
    }

    /// Row `row` of the picture that is arriving for message `id`, as hex of little-endian RGB565;
    /// the last row completes it (and the next preview can be asked for). A row of a message that is
    /// not waiting for one, out of the picture, or too short, is ignored.
    #[verifier::spinoff_prover]
    #[verifier::rlimit(40)]
    pub fn thumb_row(&mut self, chat: usize, id: &str, row: usize, hex: &[u8])
        requires
            old(self).wf(),
        ensures
            final(self).wf(),
            ({
                let found = id_position(old(self).store.messages@, chat as u8, id@);
                let i = found->0;
                let m = old(self).store.messages@[i];
                let slot = m.slot as int;
                let (width, height) = old(self).thumbs.sizes@[slot];
                if found is None || m.thumb != 1 || row >= height || hex@.len() < width * 4 {
                    *final(self) == *old(self)
                } else {
                    &&& final(self).thumbs.pool@.len() == THUMB_SLOTS
                    &&& final(self).thumbs.pool@[slot]@ == row_written(old(self).thumbs.pool@[slot]@, row as int, width as int, hex@)
                    &&& forall|s: int| 0 <= s < THUMB_SLOTS && s != slot ==> #[trigger] final(self).thumbs.pool@[s] == old(self).thumbs.pool@[s]
                    &&& if row + 1 == height {
                        &&& final(self).store.messages@ == old(self).store.messages@.update(i, Message { thumb: 2, ..m })
                        &&& *final(self) == (Chat { store: Store { messages: final(self).store.messages, ..old(self).store },
                            thumbs: Thumbs { pool: final(self).thumbs.pool, asked: 0, ..old(self).thumbs }, ..*old(self) })
                    } else {
                        *final(self) == (Chat { thumbs: Thumbs { pool: final(self).thumbs.pool, ..old(self).thumbs }, ..*old(self) })
                    }
                }
            }),
    {
        let index = match self.message_with_id(chat as u8, id) {
            Some(index) => index,
            None => return,
        };
        if self.store.messages[index].thumb != 1 {
            return;
        }
        assert(message_wf(self.store.messages@[index as int]));
        let slot = self.store.messages[index].slot as usize;
        let (width, height) = self.thumbs.sizes[slot];
        if row >= height as usize || hex.len() < (width as usize) * 4 {
            return;
        }
        let mut pixels: Vec<u16> = Vec::new();
        std::mem::swap(&mut pixels, &mut self.thumbs.pool[slot]);
        assert(pixels@.len() == THUMB_PIXELS);
        write_row(&mut pixels, row, width as usize, hex);
        std::mem::swap(&mut pixels, &mut self.thumbs.pool[slot]);
        proof {
            assert forall|s: int| 0 <= s < THUMB_SLOTS implies (#[trigger] self.thumbs.pool@[s])@.len() == THUMB_PIXELS by {
                if s != slot { assert(old(self).thumbs.pool@[s]@.len() == THUMB_PIXELS); }
            }
        }
        if row + 1 == height as usize {
            self.store.messages[index].thumb = 2;
            self.thumbs.asked = 0;
            proof {
                assert forall|i: int| 0 <= i < self.store.messages@.len() implies message_wf(#[trigger] self.store.messages@[i]) by {
                    assert(message_wf(old(self).store.messages@[i]));
                }
            }
        }
    }

    /// The core has no preview for message `id` (`THUMBFAIL`); the next one can be asked for.
    pub fn thumb_failed(&mut self, chat: usize, id: &str)
        requires
            old(self).wf(),
        ensures
            final(self).wf(),
            id_position(old(self).store.messages@, chat as u8, id@) is None ==> *final(self)
                == (Chat { thumbs: Thumbs { asked: 0, ..old(self).thumbs }, ..*old(self) }),
            id_position(old(self).store.messages@, chat as u8, id@) matches Some(i) ==> ({
                &&& final(self).store.messages@ == old(self).store.messages@.update(i, Message { thumb: 3, ..old(self).store.messages@[i] })
                &&& *final(self) == (Chat { store: Store { messages: final(self).store.messages, ..old(self).store },
                    thumbs: Thumbs { asked: 0, ..old(self).thumbs }, ..*old(self) })
            }),
    {
        if let Some(index) = self.message_with_id(chat as u8, id) {
            self.store.messages[index].thumb = 3;
            proof {
                assert forall|i: int| 0 <= i < self.store.messages@.len() implies message_wf(#[trigger] self.store.messages@[i]) by {
                    assert(message_wf(old(self).store.messages@[i]));
                }
            }
        }
        self.thumbs.asked = 0;
    }

    /// The preview picture of `message`: its pixels (rows `THUMB_SIDE` apart), width and height;
    /// none until all of it arrived.
    pub fn thumb_of(&self, message: &Message) -> (thumb: Option<(&[u16], usize, usize)>)
        requires
            self.wf(),
            (message.slot as int) < THUMB_SLOTS,
        ensures
            message.thumb != 2 ==> thumb is None,
            message.thumb == 2 ==> (thumb matches Some((pixels, width, height)) && pixels@ == self.thumbs.pool@[message.slot as int]@
                && width == self.thumbs.sizes@[message.slot as int].0 && height == self.thumbs.sizes@[message.slot as int].1),
    {
        if message.thumb != 2 {
            return None;
        }
        let slot = message.slot as usize;
        let (width, height) = self.thumbs.sizes[slot];
        Some((self.thumbs.pool[slot].as_slice(), width as usize, height as usize))
    }
}


impl Chat {
    /// The first bubble of the open conversation that wants its preview, between `top` and `bottom`.
    fn preview_wanted(&self, top: i32, bottom: i32) -> (wanted: Option<usize>)
        requires
            self.wf(),
        ensures
            match wanted {
                Some(k) => wanted_from(layout_of(self).0, self.store.messages@, top as int, bottom as int, 0) == Some(k as int),
                None => wanted_from(layout_of(self).0, self.store.messages@, top as int, bottom as int, 0) is None,
            },
            wanted matches Some(k) ==> k < self.store.messages@.len() && self.store.messages@[k as int].chat == self.screen.selected,
    {
        let (rows, _) = self.place();
        let ghost layout = layout_of(self).0;
        proof {
            lemma_placed_rows(self.store.messages@, self.screen.selected as int, 0, None, None,
                (crate::chat_messages::CONVERSATION_TOP - crate::chat_messages::DAY_CHIP_ROW) as int);
        }
        let mut k: usize = 0;
        while k < rows.len()
            invariant
                0 <= k <= rows@.len(),
                rows@.len() == layout.len(),
                layout == layout_of(self).0,
                forall|j: int| 0 <= j < rows@.len() ==> ((#[trigger] rows@[j]).0 as int, rows@[j].1 as int, rows@[j].2) == layout[j],
                forall|j: int| 0 <= j < layout.len() ==> {
                    let r = #[trigger] layout[j];
                    0 <= r.0 < self.store.messages@.len() && self.store.messages@[r.0].chat as int == self.screen.selected
                },
                wanted_from(layout, self.store.messages@, top as int, bottom as int, 0)
                    == wanted_from(layout, self.store.messages@, top as int, bottom as int, k as int),
            decreases rows@.len() - k,
        {
            let (index, y, _) = rows[k];
            assert(layout[k as int].0 == index as int);
            let m = &self.store.messages[index];
            let block = m.block();
            if m.thumb == 0 && m.id.unicode_len() > 0 && (m.kind == MEDIA_IMAGE || m.kind == MEDIA_VIDEO)
                && (y as i64) + (block.1 as i64) >= top as i64 && y <= bottom {
                return Some(index);
            }
            k = k + 1;
        }
        None
    }

    /// Asks the core for the preview of a photo or video of the open conversation that is on screen
    /// and has none (`THUMB chat id`), at `now` (milliseconds): one at a time, asking again after five
    /// seconds without an answer.
    #[verifier::spinoff_prover]
    #[verifier::rlimit(40)]
    pub fn request_thumbs(&mut self, now: i64)
        requires
            old(self).wf(),
        ensures
            final(self).wf(),
            ({
                let idle = !old(self).screen.open || old(self).screen.tab != Tab::Chats || old(self).screen.selected >= MAX_CHATS
                    || (old(self).thumbs.asked != 0 && now - old(self).thumbs.asked < 5000);
                let top = old(self).scroll.conversation - HEADER_H;
                let bottom = old(self).scroll.conversation + viewport_of(old(self)) + HEADER_H;
                let wanted = wanted_from(layout_of(old(self)).0, old(self).store.messages@, top, bottom, 0);
                if idle || wanted is None {
                    *final(self) == *old(self)
                } else {
                    let id = old(self).store.messages@[wanted->0].id@;
                    &&& sent(old(self).outbox@, final(self).outbox@, send_line("THUMB\t"@, old(self).screen.selected as int, id))
                    &&& match id_position(old(self).store.messages@, old(self).screen.selected as u8, id) {
                        Some(p) => final(self).store.messages@ == old(self).store.messages@.update(p,
                            Message { thumb: 1, ..old(self).store.messages@[p] }),
                        None => final(self).store.messages@ == old(self).store.messages@,
                    }
                    &&& *final(self) == (Chat { store: Store { messages: final(self).store.messages, ..old(self).store },
                        thumbs: Thumbs { asked: now, ..old(self).thumbs }, outbox: final(self).outbox, ..*old(self) })
                }
            }),
    {
        if !self.screen.open || self.screen.tab != Tab::Chats || self.screen.selected >= MAX_CHATS
            || (self.thumbs.asked != 0 && (now as i128) - (self.thumbs.asked as i128) < 5000) {
            return;
        }
        let top = self.scroll.conversation - HEADER_H;
        let bottom = self.scroll.conversation + self.viewport_height() + HEADER_H;
        let index = match self.preview_wanted(top, bottom) {
            Some(index) => index,
            None => return,
        };
        let chat = self.screen.selected;
        let id = self.store.messages[index].id.as_str().to_owned();
        let line = command_line("THUMB\t", chat, id.as_str());
        self.tell_core(line);
        if let Some(found) = self.message_with_id(chat as u8, id.as_str()) {
            self.store.messages[found].thumb = 1;
            proof {
                assert forall|i: int| 0 <= i < self.store.messages@.len() implies message_wf(#[trigger] self.store.messages@[i]) by {
                    assert(message_wf(old(self).store.messages@[i]));
                }
            }
        }
        self.thumbs.asked = now;
    }

    /// An older message of `chat` from the core (`PAST`), on day `today`: it goes before the
    /// conversation's first one. The marks on messages go, since their numbers changed.
    #[verifier::spinoff_prover]
    #[verifier::rlimit(40)]
    pub fn receive_older_on(&mut self, chat: usize, outgoing: bool, read: bool, time: &str, id: &str, reply: &str, text: &str, today: u16)
        requires
            old(self).wf(),
        ensures
            final(self).wf(),
            (chat >= MAX_CHATS || !old(self).store.conversations@[chat as int].used) ==> *final(self) == *old(self),
            (chat < MAX_CHATS && old(self).store.conversations@[chat as int].used) ==> ({
                let kept = kept_messages(old(self).store.messages@);
                let at = match first_of(kept, chat as int, 0) { Some(f) => f, None => kept.len() as int };
                let m = final(self).store.messages@[at];
                &&& final(self).store.messages@ == moved_first(kept.push(m))
                &&& fresh(m, chat, outgoing, delivery_of(read), text@, stamp_of(time@), message_day(time@, today), id@, reply@)
                &&& *final(self) == (Chat { store: Store { messages: final(self).store.messages, ..old(self).store },
                    marks: Marks { flash: None, message_menu: None, hover: None, ..old(self).marks }, ..*old(self) })
            }),
    {
        if chat >= MAX_CHATS || !self.store.conversations[chat].used {
            return;
        }
        let (stamp, day) = crate::items::split_stamp(time);
        let day = if day == 0 { today } else { day };
        let delivery = if read { Delivery::Read } else { Delivery::Delivered };
        self.push_message(chat, outgoing, delivery, text, stamp, day, id, reply);
        let ghost pushed = self.store.messages@;
        let last = self.store.messages.len() - 1;
        let mut first: usize = 0;
        proof { lemma_first_of_bounds(pushed.drop_last(), chat as int, 0); }
        while first < last && self.store.messages[first].chat as usize != chat
            invariant
                0 <= first <= last,
                last == pushed.len() - 1,
                self.store.messages@ == pushed,
                first_of(pushed.drop_last(), chat as int, 0) == first_of(pushed.drop_last(), chat as int, first as int),
            decreases last - first,
        {
            first = first + 1;
        }
        if first < last {
            let m = self.store.messages.remove(last);
            self.store.messages.insert(first, m);
            assert(self.store.messages@ =~= moved_first(pushed));
        } else {
            assert(self.store.messages@ =~= moved_first(pushed));
        }
        proof {
            let kept = kept_messages(old(self).store.messages@);
            assert(pushed.drop_last() =~= kept);
            let at = match first_of(kept, chat as int, 0) { Some(f) => f, None => kept.len() as int };
            assert(self.store.messages@[at] == pushed.last());
            assert(kept.push(pushed.last()) =~= pushed);
            assert forall|i: int| 0 <= i < self.store.messages@.len() implies message_wf(#[trigger] self.store.messages@[i]) by {
                if first < last {
                    if i < first { assert(self.store.messages@[i] == pushed[i]); }
                    else if i > first { assert(self.store.messages@[i] == pushed[i - 1]); }
                    else { assert(self.store.messages@[i] == pushed[last as int]); }
                } else {
                    assert(self.store.messages@[i] == pushed[i]);
                }
            }
        }
        self.marks.flash = None;
        self.marks.message_menu = None;
        self.marks.hover = None;
    }

    /// An older message of `chat` from the core (`PAST`).
    pub fn receive_older(&mut self, chat: usize, outgoing: bool, read: bool, time: &str, id: &str, reply: &str, text: &str)
        requires
            old(self).wf(),
        ensures
            final(self).wf(),
            (chat >= MAX_CHATS || !old(self).store.conversations@[chat as int].used) ==> *final(self) == *old(self),
            (chat < MAX_CHATS && old(self).store.conversations@[chat as int].used) ==> ({
                let kept = kept_messages(old(self).store.messages@);
                let at = match first_of(kept, chat as int, 0) { Some(f) => f, None => kept.len() as int };
                let m = final(self).store.messages@[at];
                &&& final(self).store.messages@ == moved_first(kept.push(m))
                &&& exists|today: u16| fresh(m, chat, outgoing, delivery_of(read), text@, stamp_of(time@),
                    #[trigger] message_day(time@, today), id@, reply@)
            }),
    {
        let today = crate::dates::today();
        self.receive_older_on(chat, outgoing, read, time, id, reply, text, today);
    }

    /// At `now` (milliseconds): asks the core for messages older than the first one of the open
    /// conversation (`OLDER chat id`), when the view is at its top and the conversation may have
    /// more; once at a time, asking again after four seconds without an answer.
    #[verifier::spinoff_prover]
    #[verifier::rlimit(40)]
    pub fn request_older_if_top(&mut self, now: i64)
        requires
            old(self).wf(),
        ensures
            final(self).wf(),
            ({
                let chat = old(self).screen.selected;
                let stop = !old(self).screen.open || old(self).screen.tab != Tab::Chats || old(self).scroll.conversation > 0 || chat >= 64
                    || (old(self).store.exhausted >> (chat as u64)) & 1 == 1
                    || (old(self).store.older_asked != 0 && now - old(self).store.older_asked < 4000)
                    || first_with_id(old(self).store.messages@, chat as int, 0) is None;
                if stop {
                    *final(self) == *old(self)
                } else {
                    let first = first_with_id(old(self).store.messages@, chat as int, 0)->0;
                    &&& sent(old(self).outbox@, final(self).outbox@, send_line("OLDER\t"@, chat as int, old(self).store.messages@[first].id@))
                    &&& *final(self) == (Chat { store: Store { older_asked: now, older_content: layout_of(old(self)).1 as i32, ..old(self).store },
                        outbox: final(self).outbox, ..*old(self) })
                }
            }),
    {
        let chat = self.screen.selected;
        if !self.screen.open || self.screen.tab != Tab::Chats || self.scroll.conversation > 0 || chat >= 64
            || (self.store.exhausted >> (chat as u64)) & 1 == 1 {
            return;
        }
        if self.store.older_asked != 0 && (now as i128) - (self.store.older_asked as i128) < 4000 {
            return;
        }
        let mut first: usize = 0;
        proof { lemma_first_with_id_bounds(self.store.messages@, chat as int, 0); }
        while first < self.store.messages.len()
            && !(self.store.messages[first].chat as usize == chat && self.store.messages[first].id.unicode_len() > 0)
            invariant
                0 <= first <= self.store.messages@.len(),
                self.store.messages@ == old(self).store.messages@,
                first_with_id(self.store.messages@, chat as int, 0) == first_with_id(self.store.messages@, chat as int, first as int),
            decreases self.store.messages@.len() - first,
        {
            first = first + 1;
        }
        if first == self.store.messages.len() {
            return;
        }
        let id = self.store.messages[first].id.as_str().to_owned();
        let line = command_line("OLDER\t", chat, id.as_str());
        self.tell_core(line);
        self.store.older_asked = now;
        let (_, content) = self.place();
        self.store.older_content = content;
    }

    /// The core has sent all it had for the request (`PASTEND chat more`): with nothing more, the
    /// conversation is not asked again; the open one keeps its view on the same messages.
    pub fn older_done(&mut self, chat: usize, more: bool)
        requires
            old(self).wf(),
        ensures
            final(self).wf(),
            ({
                let grown = layout_of(old(self)).1 - old(self).store.older_content;
                let moved = old(self).scroll.conversation + (if grown > 0 { grown } else { 0 });
                &&& final(self).store == (Store { older_asked: 0,
                    exhausted: if !more && chat < 64 { old(self).store.exhausted | (1u64 << (chat as u64)) } else { old(self).store.exhausted },
                    ..old(self).store })
                &&& final(self).scroll.conversation as int == (if chat == old(self).screen.selected {
                    if moved > 0x1000_0000 { 0x1000_0000 } else { moved } } else { old(self).scroll.conversation as int })
                &&& *final(self) == (Chat { store: final(self).store, scroll: Scroll { conversation: final(self).scroll.conversation,
                    ..old(self).scroll }, ..*old(self) })
            }),
    {
        self.store.older_asked = 0;
        if !more && chat < 64 {
            self.store.exhausted = self.store.exhausted | (1u64 << (chat as u64));
        }
        if chat == self.screen.selected {
            let (_, content) = self.place();
            let grown: i32 = content - self.store.older_content;
            let moved: i32 = self.scroll.conversation + if grown > 0 { grown } else { 0 };
            self.scroll.conversation = if moved > 0x1000_0000 { 0x1000_0000 } else { moved };
        }
    }
}

} // verus!
