//! Forwarding a message, the answers to the message box, jumping to a message, the emoji picker's
//! choices, the window's size, and starting over.

use vstd::prelude::*;
use crate::chat::{Chat, sent};
use crate::chat_dialogs::{forward_order, others, send_line, FORWARD_ROW_H, FORWARD_LIST_H};
use crate::chat_flow::{kept_messages, fresh};
use crate::chat_lists::{list_order, list_before, overflow, smaller, clamped, panel_content};
use crate::chat_media::command_line;
use crate::chat_messages::{layout_of, viewport_of, height_of, id_position, lemma_placed_rows, lemma_id_position_heights};
use crate::field::{typed, FieldView};
use crate::items::{Message, Conversation, Delivery, Focus, Tab, MAX_CHATS, MESSAGE_CAPACITY, NAME_CAPACITY, blank};
use crate::layout::{ROW_H, LIST_TOP, BUBBLE_PAD_X, RAIL_W, panel_width, sidebar_width};
use crate::screen::{Store, Scroll, Screen, Marks, Dialog, Boxes, Finder, message_wf, empty_field};
use crate::text::{fit, byte_len, string_of, chars_of, digit};
use crate::font::{div_toward_zero, emoji_key, is_scalar, BRAZIL_FLAG};

verus! {

/// How many of the conversations are in use.
pub open spec fn used_count(conversations: Seq<Conversation>, k: int) -> nat
    decreases k,
{
    if k <= 0 || k > conversations.len() {
        0
    } else {
        used_count(conversations, k - 1) + if conversations[k - 1].used { 1nat } else { 0nat }
    }
}

/// The top edge of the bubble of message `index` in the layout `rows`, from row `k` on.
pub open spec fn top_of(rows: Seq<(int, int, bool)>, index: int, k: int) -> Option<int>
    decreases rows.len() - k,
{
    if k < 0 || k >= rows.len() {
        None
    } else if rows[k].0 == index {
        Some(rows[k].1)
    } else {
        top_of(rows, index, k + 1)
    }
}

/// The width the text of a bubble may take in a window `window_width` wide: 65% of the
/// conversation's side (at least 200 pixels), less the bubble's padding.
pub open spec fn text_limit_for(window_width: int) -> int {
    let side = window_width - (RAIL_W + panel_width(window_width));
    let share = div_toward_zero(side * 65, 100);
    (if share < 200 { 200 } else { share }) - 2 * BUBBLE_PAD_X
}

/// Division that rounds toward zero, as Rust's `/` does, on `i64`s.
fn div_zero(a: i64, b: i64) -> (q: i64)
    requires
        b > 0,
        a > i64::MIN,
    ensures
        q == div_toward_zero(a as int, b as int),
{
    if a >= 0 { a / b } else { -((-a) / b) }
}

/// The seconds from `since` to `now`, none if `now` is earlier.
pub open spec fn elapsed(now: int, since: int) -> int {
    if now - since > 0 { now - since } else { 0 }
}

/// `mm:ss` of `seconds`, with `h:` before it from the first hour on (the hours' last digit).
pub open spec fn call_clock_text(seconds: int) -> Seq<char> {
    let hours = seconds / 3600;
    (if hours > 0 { seq![digit(hours % 10), ':'] } else { Seq::empty() })
        + seq![digit(seconds / 60 % 60 / 10), digit(seconds / 60 % 60 % 10), ':', digit(seconds % 60 / 10), digit(seconds % 60 % 10)]
}

/// `c` is the first character of emoji number `index` of the picker (of two for the flag of Brazil).
pub open spec fn emoji_first(emoji: Seq<u8>, index: int, c: char) -> bool {
    let key = emoji_key(emoji, index);
    &&& key == BRAZIL_FLAG ==> c == '\u{1F1E7}'
    &&& key != BRAZIL_FLAG && is_scalar(key) ==> c as u32 == key
    &&& key != BRAZIL_FLAG && !is_scalar(key) ==> c == '?'
}

proof fn lemma_used_count_bound(conversations: Seq<Conversation>, k: int)
    requires
        0 <= k <= conversations.len(),
    ensures
        used_count(conversations, k) <= k,
    decreases k,
{
    if k > 0 {
        lemma_used_count_bound(conversations, k - 1);
    }
}

/// The forward panel opened for message `index`.
pub open spec fn forward_opened(prior: Chat, next: Chat, index: usize) -> bool {
    &&& ({
        let m = prior.store.messages@[index as int];
        if m.deleted || m.text@.len() == 0 {
            next == prior
        } else {
            &&& next.marks.forward_text@ == m.text@
            &&& next == (Chat { marks: Marks { forward_open: true, forward_text: next.marks.forward_text, ..prior.marks },
                scroll: Scroll { forward: 0, ..prior.scroll }, ..prior })
        }
    })
}

/// The message being forwarded sent to conversation `chat`.
pub open spec fn forwarded(prior: Chat, next: Chat, chat: usize) -> bool {
    &&& !next.marks.forward_open
    &&& (chat >= MAX_CHATS || !prior.store.conversations@[chat as int].used) ==> next
        == (Chat { marks: Marks { forward_open: false, ..prior.marks }, ..prior })
    &&& (chat < MAX_CHATS && prior.store.conversations@[chat as int].used) ==> ({
        &&& next.outbox@.len() > prior.outbox@.len()
        &&& next.outbox@[prior.outbox@.len() as int]@ == send_line("SEND\t"@, chat as int, prior.marks.forward_text@)
    })
}

/// The forward panel scrolled by `notches` rows of the wheel, within its list.
pub open spec fn forward_scrolled(prior: Chat, next: Chat, notches: i32) -> bool {
    &&& ({
        let max = overflow(used_count(prior.store.conversations@, MAX_CHATS as int) * FORWARD_ROW_H, FORWARD_LIST_H as int);
        next == (Chat { scroll: Scroll { forward: clamped(prior.scroll.forward + notches * 28, 0, max) as i32,
            ..prior.scroll }, ..prior })
    })
}

impl Chat {
    /// Opens the list of conversations to forward message `index` to; a deleted or empty message
    /// cannot be forwarded.
    pub fn open_forward(&mut self, index: usize)
        requires
            old(self).wf(),
            index < old(self).store.messages@.len(),
        ensures
            final(self).wf(),
            forward_opened(*old(self), *final(self), index),
    {
        let message = &self.store.messages[index];
        if message.deleted || message.text.unicode_len() == 0 {
            return;
        }
        assert(message_wf(self.store.messages@[index as int]));
        self.marks.forward_text = message.text.as_str().to_owned();
        self.scroll.forward = 0;
        self.marks.forward_open = true;
    }

    /// The conversations offered when forwarding, freshest first.
    pub fn forward_targets(&self) -> (targets: Vec<u8>)
        requires
            self.wf(),
        ensures
            forward_order(self.store.conversations@, targets@),
            targets@.len() == used_count(self.store.conversations@, MAX_CHATS as int),
    {
        let conversations = &self.store.conversations;
        let mut targets: Vec<u8> = Vec::new();
        let mut index: usize = 0;
        while index < MAX_CHATS
            invariant
                0 <= index <= MAX_CHATS,
                conversations@.len() == MAX_CHATS,
                conversations@ == self.store.conversations@,
                targets@.len() == used_count(conversations@, index as int),
                forall|i: int, j: int| 0 <= i < j < targets@.len() ==> list_before(conversations@, targets@[i] as int, targets@[j] as int),
                forall|k: int| 0 <= k < index ==> (conversations@[k].used <==> targets@.contains(k as u8)),
                forall|i: int| 0 <= i < targets@.len() ==> (#[trigger] targets@[i] as int) < index,
            decreases MAX_CHATS - index,
        {
            let conversation = &conversations[index];
            if conversation.used {
                let rank = conversation.rank;
                let mut at: usize = targets.len();
                while at > 0 && conversations[targets[at - 1] as usize].rank < rank
                    invariant
                        0 <= at <= targets@.len(),
                        conversations@.len() == MAX_CHATS,
                        rank == conversations@[index as int].rank,
                        forall|i: int| 0 <= i < targets@.len() ==> (#[trigger] targets@[i] as int) < index,
                        index < MAX_CHATS,
                        forall|i: int| at <= i < targets@.len() ==> conversations@[targets@[i] as int].rank < rank,
                    decreases at,
                {
                    at = at - 1;
                }
                let ghost before = targets@;
                proof {
                    assert forall|i: int| 0 <= i < at implies conversations@[before[i] as int].rank >= rank by {
                        if conversations@[before[i] as int].rank < rank {
                            if i < at - 1 {
                                assert(list_before(conversations@, before[i] as int, before[at - 1] as int));
                            }
                        }
                    }
                }
                targets.insert(at, index as u8);
                proof {
                    assert forall|i: int, j: int| 0 <= i < j < targets@.len() implies list_before(conversations@, targets@[i] as int, targets@[j] as int) by {
                        if i < at && j == at {
                            assert(conversations@[before[i] as int].rank >= rank);
                            assert((before[i] as int) < index);
                        } else if i == at && j > at {
                            assert(conversations@[before[j - 1] as int].rank < rank);
                        } else if i < at && j > at {
                            assert(list_before(conversations@, before[i] as int, before[j - 1] as int));
                        } else if i > at {
                            assert(list_before(conversations@, before[i - 1] as int, before[j - 1] as int));
                        }
                    }
                    assert forall|k: int| 0 <= k < index + 1 implies (conversations@[k].used <==> targets@.contains(k as u8)) by {
                        if k < index {
                            if before.contains(k as u8) {
                                let w = choose|w: int| 0 <= w < before.len() && before[w] == k as u8;
                                assert(targets@[if w < at { w } else { w + 1 }] == k as u8);
                            }
                            if targets@.contains(k as u8) {
                                let w = choose|w: int| 0 <= w < targets@.len() && targets@[w] == k as u8;
                                assert(w != at);
                                assert(before[if w < at { w } else { w - 1 }] == k as u8);
                            }
                        } else {
                            assert(targets@[at as int] == index as u8);
                        }
                    }
                }
            } else {
                proof {
                    assert forall|k: int| 0 <= k < index + 1 implies (conversations@[k].used <==> targets@.contains(k as u8)) by {
                        if k == index && targets@.contains(k as u8) {
                            let w = choose|w: int| 0 <= w < targets@.len() && targets@[w] == k as u8;
                            assert((targets@[w] as int) < index);
                        }
                    }
                }
            }
            index = index + 1;
        }
        targets
    }

    /// Scrolls the forward list by `notches` of the mouse wheel, half a row each, within the list.
    pub fn scroll_forward(&mut self, notches: i32)
        requires
            old(self).wf(),
            -0x10_0000 <= notches <= 0x10_0000,
        ensures
            final(self).wf(),
            forward_scrolled(*old(self), *final(self), notches),
    {
        let count = self.forward_targets().len();
        proof { lemma_used_count_bound(self.store.conversations@, MAX_CHATS as int); }
        let content: i32 = (count as i32) * FORWARD_ROW_H - FORWARD_LIST_H;
        let max: i32 = if content > 0 { content } else { 0 };
        let wanted: i32 = self.scroll.forward + notches * FORWARD_ROW_H / 2;
        self.scroll.forward = if wanted < 0 { 0 } else if wanted > max { max } else { wanted };
    }

    /// Sends the text being forwarded to conversation `chat` (`SEND chat text`) and closes the list;
    /// at `now` (seconds since 1970) the message shows in the conversation, which goes to the top.
    #[verifier::spinoff_prover]
    #[verifier::rlimit(60)]
    pub fn forward_to_at(&mut self, chat: usize, now: i64)
        requires
            old(self).wf(),
            now >= i64::MIN + 10800,
        ensures
            final(self).wf(),
            !final(self).marks.forward_open,
            (chat >= MAX_CHATS || !old(self).store.conversations@[chat as int].used) ==> *final(self)
                == (Chat { marks: Marks { forward_open: false, ..old(self).marks }, ..*old(self) }),
            (chat < MAX_CHATS && old(self).store.conversations@[chat as int].used) ==> ({
                let text = old(self).marks.forward_text@;
                &&& final(self).outbox@.len() > old(self).outbox@.len()
                &&& final(self).outbox@[old(self).outbox@.len() as int]@ == send_line("SEND\t"@, chat as int, text)
                &&& final(self).outbox@.take(old(self).outbox@.len() as int) == old(self).outbox@
                &&& final(self).store.messages@.drop_last() == kept_messages(old(self).store.messages@)
                &&& fresh(final(self).store.messages@.last(), chat, true, Delivery::Sent, text, crate::link::clock_text(now as int),
                    crate::dates::day_of_seconds(now as int), ""@, ""@)
                &&& final(self).store.conversations@[chat as int].rank == old(self).store.next_live_rank
                &&& list_order(final(self).store.conversations@, old(self).screen.unread_only, old(self).boxes.search@.text,
                    final(self).store.visible@)
                &&& chat == old(self).screen.selected ==> final(self).scroll.conversation == overflow(layout_of(final(self)).1, viewport_of(final(self)))
                &&& chat != old(self).screen.selected ==> final(self).scroll.conversation == old(self).scroll.conversation
            }),
    {
        self.marks.forward_open = false;
        if chat >= MAX_CHATS || !self.store.conversations[chat].used {
            return;
        }
        let text = self.marks.forward_text.as_str().to_owned();
        let line = command_line("SEND\t", chat, text.as_str());
        self.tell_core(line);
        let ghost told = self.outbox@;
        let time = crate::link::clock_at(now);
        let (days, _) = crate::text::div_rem_euclid(now - 10800, 86400);
        let day: u16 = days as u16;
        assert(day == crate::dates::day_of_seconds(now as int));
        proof { reveal_strlit(""); }
        assert(time@.len() == 5);
        self.push_message(chat, true, Delivery::Sent, text.as_str(), time, day, "", "");
        self.bump(chat);
        assert(self.outbox@.take(told.len() as int) =~= told.take(told.len() as int));
        if chat == self.screen.selected {
            self.scroll.conversation = self.max_conversation_scroll();
        }
    }

    /// Sends the text being forwarded to conversation `chat`, now.
    pub fn forward_to(&mut self, chat: usize)
        requires
            old(self).wf(),
        ensures
            final(self).wf(),
            forwarded(*old(self), *final(self), chat),
    {
        let now = crate::chat::now_seconds();
        self.forward_to_at(chat, now);
    }
}


/// The line that tells the core about conversation `chat`: `head` and its number in two digits.
pub open spec fn chat_line(head: Seq<char>, chat: int) -> Seq<char> {
    head + crate::chat::two_digit(chat)
}

fn chat_command(head: &str, chat: usize) -> (line: String)
    requires
        chat < 100,
    ensures
        line@ == chat_line(head@, chat as int),
{
    let mut chars = chars_of(head);
    chars.push(crate::text::digit_char((chat / 10) as u64));
    chars.push(crate::text::digit_char((chat % 10) as u64));
    assert(chars@ =~= chat_line(head@, chat as int));
    string_of(chars.as_slice())
}

/// The view brought to message `index`, which flashes.
pub open spec fn jumped_to(prior: Chat, next: Chat, index: usize) -> bool {
    &&& match top_of(layout_of(&prior).0, index as int, 0) {
        None => next == prior,
        Some(y) => next == (Chat {
            scroll: Scroll { conversation: clamped(y - div_toward_zero(viewport_of(&prior), 3), 0,
                overflow(layout_of(&prior).1, viewport_of(&prior))) as i32, ..prior.scroll },
            marks: Marks { flash: Some(index), ..prior.marks }, ..prior }),
    }
}

/// The message box answered with its main button or the other one.
pub open spec fn dialog_answered(prior: Chat, next: Chat, main_button: bool) -> bool {
    &&& !next.dialog.open && !next.dialog.asks()
    &&& next.dialog == (Dialog { open: false, confirm_delete: None, confirm_clear: None, confirm_remove: None, ..prior.dialog })
    &&& !main_button ==> next == (Chat { dialog: next.dialog, ..prior })
    &&& (main_button && prior.dialog.confirm_remove is None && prior.dialog.confirm_clear is None
        && prior.dialog.confirm_delete is None) ==> next == (Chat { dialog: next.dialog, ..prior })
    &&& (main_button && prior.dialog.confirm_remove is Some) ==> ({
        let chat = prior.dialog.confirm_remove->0;
        &&& blank(next.store.conversations@[chat as int])
        &&& prior.dialog.confirm_clear is None && prior.dialog.confirm_delete is None
            ==> next.store.messages@ == others(prior.store.messages@, chat as int)
    })
    &&& (main_button && prior.dialog.confirm_remove is None && prior.dialog.confirm_clear is Some
        && prior.dialog.confirm_delete is None) ==> ({
        let chat = prior.dialog.confirm_clear->0;
        &&& next.store.messages@ == others(prior.store.messages@, chat as int)
        &&& sent(prior.outbox@, next.outbox@, chat_line("CLEARCHAT\t"@, chat as int))
    })
}

impl Chat {
    /// Takes `chat` off the list with its messages and tells the core (`DELETECHAT chat`); if it was
    /// open, the conversation closes with an empty box.
    #[verifier::spinoff_prover]
    #[verifier::rlimit(60)]
    fn remove_conversation(&mut self, chat: usize)
        requires
            old(self).wf(),
            chat < MAX_CHATS,
        ensures
            final(self).wf(),
            final(self).store.messages@ == others(old(self).store.messages@, chat as int),
            blank(final(self).store.conversations@[chat as int]),
            forall|i: int| 0 <= i < MAX_CHATS && i != chat ==> final(self).store.conversations@[i] == old(self).store.conversations@[i],
            final(self).outbox@.len() > old(self).outbox@.len(),
            final(self).outbox@[old(self).outbox@.len() as int]@ == chat_line("DELETECHAT\t"@, chat as int),
            final(self).outbox@.take(old(self).outbox@.len() as int) == old(self).outbox@,
            list_order(final(self).store.conversations@, old(self).screen.unread_only, old(self).boxes.search@.text, final(self).store.visible@),
            (old(self).screen.open && old(self).screen.selected == chat) ==> ({
                &&& !final(self).screen.open && !final(self).marks.picker_open && !final(self).finder.open
                &&& final(self).boxes.draft@.text.len() == 0 && final(self).history.undo@.len() == 0
            }),
            !(old(self).screen.open && old(self).screen.selected == chat) ==> final(self).screen == old(self).screen,
            final(self).dialog == old(self).dialog,
    {
        self.clear_messages_of(chat);
        if self.screen.open && self.screen.selected == chat {
            self.boxes.draft.clear();
            self.forget_history();
            self.screen.open = false;
            self.marks.picker_open = false;
            self.finder.open = false;
        }
        self.store.conversations.set(chat, Conversation::empty());
        proof {
            assert forall|i: int| 0 <= i < MAX_CHATS implies (#[trigger] self.store.conversations@[i]).draft@.len() <= MESSAGE_CAPACITY
                && self.store.conversations@[i].name@.len() <= NAME_CAPACITY by {
                assert(old(self).store.conversations@[i].draft@.len() <= MESSAGE_CAPACITY);
            }
        }
        let ghost before = self.outbox@;
        let line = chat_command("DELETECHAT\t", chat);
        self.tell_core(line);
        let ghost told = self.outbox@;
        self.update_visible();
        assert(self.outbox@.take(told.len() as int) =~= told);
        assert(self.outbox@.take(before.len() as int) =~= told.take(before.len() as int));
    }

    /// Drops the messages of `chat` from the screen and tells the core (`CLEARCHAT chat`).
    fn clear_conversation(&mut self, chat: usize)
        requires
            old(self).wf(),
            chat < MAX_CHATS,
        ensures
            final(self).wf(),
            final(self).store.messages@ == others(old(self).store.messages@, chat as int),
            sent(old(self).outbox@, final(self).outbox@, chat_line("CLEARCHAT\t"@, chat as int)),
            final(self).store.conversations == old(self).store.conversations && final(self).screen == old(self).screen,
            final(self).dialog == old(self).dialog,
            final(self).marks == (Marks { flash: None, message_menu: None, ..old(self).marks }),
            final(self).scroll == (Scroll { conversation: 0, ..old(self).scroll }),
    {
        self.clear_messages_of(chat);
        let line = chat_command("CLEARCHAT\t", chat);
        self.tell_core(line);
    }

    /// The answer to the message box: `main_button` is its main button (OK, or Delete when it asks).
    /// The box closes; what it asked is done on the main button: the conversation is removed or
    /// cleared, or the message deleted for everyone.
    #[verifier::spinoff_prover]
    #[verifier::rlimit(60)]
    pub fn dialog_answer(&mut self, main_button: bool)
        requires
            old(self).wf(),
        ensures
            final(self).wf(),
            dialog_answered(*old(self), *final(self), main_button),
    {
        self.dialog.open = false;
        let remove = self.dialog.confirm_remove;
        self.dialog.confirm_remove = None;
        if let Some(chat) = remove {
            if main_button {
                self.remove_conversation(chat);
            }
        }
        let clear = self.dialog.confirm_clear;
        self.dialog.confirm_clear = None;
        if let Some(chat) = clear {
            if main_button {
                self.clear_conversation(chat);
            }
        }
        let delete = self.dialog.confirm_delete;
        self.dialog.confirm_delete = None;
        if let Some(index) = delete {
            if main_button && index < self.store.messages.len() {
                self.delete_for_everyone(index);
            }
        }
    }

    /// Scrolls to message `index` and marks it for a moment (a click on a quote): its bubble comes to
    /// a third of the way down the view, as far as the conversation scrolls.
    pub fn jump_to_message(&mut self, index: usize)
        requires
            old(self).wf(),
        ensures
            final(self).wf(),
            jumped_to(*old(self), *final(self), index),
    {
        let (rows, _) = self.place();
        let ghost layout = layout_of(self).0;
        let mut k: usize = 0;
        while k < rows.len()
            invariant
                0 <= k <= rows@.len(),
                rows@.len() == layout.len(),
                layout == layout_of(self).0,
                self.wf(),
                *self == *old(self),
                forall|j: int| 0 <= j < rows@.len() ==> ((#[trigger] rows@[j]).0 as int, rows@[j].1 as int, rows@[j].2) == layout[j],
                top_of(layout, index as int, 0) == top_of(layout, index as int, k as int),
            decreases rows@.len() - k,
        {
            let (at, y, _) = rows[k];
            assert(layout[k as int] == (at as int, y as int, rows@[k as int].2));
            if at == index {
                let view: i64 = self.viewport_height() as i64;
                let third: i64 = if view >= 0 { view / 3 } else { -((-view) / 3) };
                let max = self.max_conversation_scroll();
                let wanted: i64 = (y as i64) - third;
                self.scroll.conversation = if wanted < 0 { 0 } else if wanted > max as i64 { max } else { wanted as i32 };
                self.marks.flash = Some(index);
                return;
            }
            k = k + 1;
        }
    }
}


/// What choosing emoji `emoji_index` in the picker opened over a message does.
pub open spec fn reaction_picked(prior: Chat, next: Chat, emoji_index: usize) -> bool {
    &&& ({
        let cleared = Chat { marks: Marks { picker_reaction: None, picker_open: false, ..prior.marks }, ..prior };
        if prior.marks.picker_reaction is Some && prior.marks.picker_reaction->0 < prior.store.messages@.len() {
            exists|c: char| emoji_first(prior.font.emoji@, emoji_index as int, c)
                && #[trigger] crate::chat_actions::reacted(cleared, next, prior.marks.picker_reaction->0 as int, c)
        } else {
            next == cleared
        }
    })
}

/// What choosing emoji `index` in the picker does to the message being written.
pub open spec fn emoji_inserted(prior: Chat, next: Chat, index: usize) -> bool {
    &&& exists|c: char| emoji_first(prior.font.emoji@, index as int, c) && #[trigger] next.boxes.draft@ == (
        if emoji_key(prior.font.emoji@, index as int) == BRAZIL_FLAG {
            typed(typed(prior.boxes.draft@, seq![c], MESSAGE_CAPACITY as nat), seq!['\u{1F1F7}'], MESSAGE_CAPACITY as nat)
        } else {
            typed(prior.boxes.draft@, seq![c], MESSAGE_CAPACITY as nat)
        })
    &&& next == (Chat { screen: Screen { focus: Focus::Message, ..prior.screen },
        boxes: Boxes { draft: next.boxes.draft, ..prior.boxes }, ..prior })
}

/// Favourite message `nth` (newest first) shown in its conversation.
pub open spec fn starred_message_opened(prior: Chat, next: Chat, nth: usize) -> bool {
    &&& ({
        let starred = crate::chat_lists::starred_indices(prior.store.messages@);
        if nth >= starred.len() {
            next == prior
        } else {
            let index = starred[starred.len() - 1 - nth];
            &&& next.screen.selected == prior.store.messages@[index].chat
            &&& next.screen.open && !next.screen.starred_open
            &&& next.store.messages == prior.store.messages
            &&& top_of(layout_of(&next).0, index, 0) is Some ==> next.marks.flash == Some(index as usize)
        }
    })
}

/// The window now `window_width` by `window_height`.
pub open spec fn resized(prior: Chat, next: Chat, window_width: i32, window_height: i32) -> bool {
    &&& next.scroll.window_height == window_height
    &&& next.scroll.text_limit == text_limit_for(window_width as int)
    &&& next.store.messages@.len() == prior.store.messages@.len()
    &&& forall|i: int| 0 <= i < prior.store.messages@.len() ==> #[trigger] next.store.messages@[i] == (Message {
        height: height_of(&next.font, &next.store, next.scroll.text_limit as int, prior.store.messages@[i]),
        ..prior.store.messages@[i] })
    &&& next.scroll.list == smaller(prior.scroll.list as int,
        overflow(prior.store.visible@.len() * ROW_H, window_height - LIST_TOP))
    &&& next.scroll.conversation == smaller(prior.scroll.conversation as int, overflow(layout_of(&next).1, viewport_of(&next)))
    &&& next.scroll.panel == smaller(prior.scroll.panel as int, overflow(panel_content(&next), window_height as int))
    &&& next == (Chat { store: Store { messages: next.store.messages, ..prior.store },
        scroll: Scroll { window_height, text_limit: next.scroll.text_limit, list: next.scroll.list,
            conversation: next.scroll.conversation, panel: next.scroll.panel, ..prior.scroll }, ..prior })
}

impl Chat {
    /// Opens the conversation of the `nth` favourite (newest first) and shows the message; nothing
    /// happens when there are not that many.
    #[verifier::spinoff_prover]
    #[verifier::rlimit(60)]
    pub fn open_starred_message(&mut self, nth: usize)
        requires
            old(self).wf(),
        ensures
            final(self).wf(),
            starred_message_opened(*old(self), *final(self), nth),
    {
        let index = match self.starred_nth(nth) {
            Some(index) => index,
            None => return,
        };
        proof { crate::chat_lists::lemma_starred_indices(self.store.messages@); }
        assert(message_wf(self.store.messages@[index as int]));
        let target = self.store.messages[index].chat as usize;
        self.close_starred();
        self.select(target);
        self.jump_to_message(index);
    }

    /// The emoji chosen in the picker (number `emoji_index`) becomes the reaction to the message it
    /// was opened for; the picker closes.
    pub fn react_with_picker(&mut self, emoji_index: usize)
        requires
            old(self).wf(),
            emoji_index < 0x1000_0000,
        ensures
            final(self).wf(),
            reaction_picked(*old(self), *final(self), emoji_index),
    {
        let reaction = self.marks.picker_reaction;
        self.marks.picker_reaction = None;
        self.marks.picker_open = false;
        if let Some(index) = reaction {
            if index < self.store.messages.len() {
                let (first, _) = crate::font::emoji_chars(&self.font, emoji_index);
                self.react(index, first);
                assert(emoji_first(old(self).font.emoji@, emoji_index as int, first));
            }
        }
    }

    /// Puts emoji number `index` of the picker into the message being written.
    #[verifier::spinoff_prover]
    #[verifier::rlimit(60)]
    pub fn insert_emoji(&mut self, index: usize)
        requires
            old(self).wf(),
            index < 0x1000_0000,
        ensures
            final(self).wf(),
            emoji_inserted(*old(self), *final(self), index),
    {
        let (first, second) = crate::font::emoji_chars(&self.font, index);
        self.screen.focus = Focus::Message;
        let ghost focused = *self;
        self.boxes.draft.push(first);
        if let Some(second) = second {
            self.boxes.draft.push(second);
        }
        assert(emoji_first(old(self).font.emoji@, index as int, first));
        assert(self.boxes.draft@ == (if emoji_key(old(self).font.emoji@, index as int) == BRAZIL_FLAG {
            typed(typed(old(self).boxes.draft@, seq![first], MESSAGE_CAPACITY as nat), seq!['\u{1F1F7}'], MESSAGE_CAPACITY as nat)
        } else {
            typed(old(self).boxes.draft@, seq![first], MESSAGE_CAPACITY as nat)
        }));
        assert(*self == (Chat { boxes: Boxes { draft: self.boxes.draft, ..focused.boxes }, ..focused }));
    }

    /// The window is now `window_width` by `window_height`: the bubbles take the heights the new
    /// width gives them, and the scroll offsets stay in range.
    #[verifier::spinoff_prover]
    #[verifier::rlimit(100)]
    pub fn resize(&mut self, window_width: i32, window_height: i32)
        requires
            old(self).wf(),
            0 <= window_width <= 0x100_0000,
            0 <= window_height <= 0x100_0000,
        ensures
            final(self).wf(),
            resized(*old(self), *final(self), window_width, window_height),
    {
        self.scroll.window_height = window_height;
        let side: i64 = (window_width as i64) - (sidebar_width(window_width) as i64);
        let share: i64 = div_zero(side * 65, 100);
        let limit: i64 = (if share < 200 { 200 } else { share }) - 2 * (BUBBLE_PAD_X as i64);
        self.scroll.text_limit = limit as i32;
        let ghost mid = *self;
        let n = self.store.messages.len();
        let mut i: usize = 0;
        while i < n
            invariant
                0 <= i <= n,
                n == self.store.messages@.len(),
                n == old(self).store.messages@.len(),
                self.wf(),
                mid.store.messages == old(self).store.messages,
                *self == (Chat { store: Store { messages: self.store.messages, ..mid.store }, ..mid }),
                forall|j: int| 0 <= j < n ==> crate::chat_messages::same_but_height(#[trigger] self.store.messages@[j], old(self).store.messages@[j]),
                forall|j: int| 0 <= j < i ==> (#[trigger] self.store.messages@[j]).height
                    == height_of(&self.font, &self.store, self.scroll.text_limit as int, old(self).store.messages@[j]),
            decreases n - i,
        {
            let ghost before = self.store;
            self.recompute_height(i);
            proof {
                assert forall|j: int| 0 <= j < n implies crate::chat_messages::same_but_height(#[trigger] self.store.messages@[j], before.messages@[j]) by {}
                crate::chat_messages::lemma_height_alike(&self.font, &self.store, &before, self.scroll.text_limit as int, old(self).store.messages@[i as int]);
                assert(height_of(&self.font, &before, self.scroll.text_limit as int, before.messages@[i as int])
                    == height_of(&self.font, &before, self.scroll.text_limit as int, old(self).store.messages@[i as int]));
                assert forall|j: int| 0 <= j < i + 1 implies (#[trigger] self.store.messages@[j]).height
                    == height_of(&self.font, &self.store, self.scroll.text_limit as int, old(self).store.messages@[j]) by {
                    crate::chat_messages::lemma_height_alike(&self.font, &self.store, &before, self.scroll.text_limit as int, old(self).store.messages@[j]);
                }
            }
            i = i + 1;
        }
        proof {
            assert forall|j: int| 0 <= j < n implies #[trigger] self.store.messages@[j] == (Message {
                height: height_of(&self.font, &self.store, self.scroll.text_limit as int, old(self).store.messages@[j]),
                ..old(self).store.messages@[j] }) by {
                assert(crate::chat_messages::same_but_height(self.store.messages@[j], old(self).store.messages@[j]));
            }
        }
        let max_list = self.max_list_scroll();
        if max_list < self.scroll.list {
            self.scroll.list = max_list;
        }
        let max_conversation = self.max_conversation_scroll();
        if max_conversation < self.scroll.conversation {
            self.scroll.conversation = max_conversation;
        }
        let max_panel = self.max_panel_scroll();
        if max_panel < self.scroll.panel {
            self.scroll.panel = max_panel;
        }
    }

    /// Lays out the empty chat screen for a window `window_width` by `window_height`; the core fills it in.
    pub fn start(&mut self, window_width: i32, window_height: i32)
        requires
            old(self).wf(),
            0 <= window_width <= 0x100_0000,
            0 <= window_height <= 0x100_0000,
        ensures
            final(self).wf(),
            final(self).scroll.window_height == window_height,
            final(self).scroll.text_limit == text_limit_for(window_width as int),
            list_order(final(self).store.conversations@, final(self).screen.unread_only, final(self).boxes.search@.text, final(self).store.visible@),
            final(self).store.conversations == old(self).store.conversations && final(self).screen == old(self).screen,
    {
        self.update_visible();
        self.resize(window_width, window_height);
    }

    /// Forgets every conversation, message, call, contact, status and channel; the list is empty and
    /// nothing is open.
    #[verifier::spinoff_prover]
    #[verifier::rlimit(40)]
    pub fn reset(&mut self)
        requires
            old(self).wf(),
        ensures
            final(self).wf(),
            forall|i: int| 0 <= i < MAX_CHATS ==> blank(#[trigger] final(self).store.conversations@[i]),
            final(self).store.messages@.len() == 0 && final(self).store.visible@.len() == 0,
            final(self).store.next_history_rank == crate::screen::HISTORY_RANK && final(self).store.next_live_rank == crate::screen::LIVE_RANK,
            !final(self).store.live && final(self).store.older_asked == 0 && final(self).store.exhausted == 0,
            final(self).thumbs.asked == 0,
            !final(self).screen.open && final(self).screen.selected == 0 && !final(self).screen.new_chat,
            final(self).scroll.list == 0 && final(self).scroll.conversation == 0 && final(self).scroll.panel == 0,
            final(self).lists.calls@.len() == 0 && final(self).lists.favorites@.len() == 0 && final(self).lists.stories@.len() == 0,
            final(self).lists.contacts@.len() == 0 && final(self).lists.channels@.len() == 0 && final(self).lists.suggestions@.len() == 0,
            final(self).outbox == old(self).outbox && final(self).boxes == old(self).boxes && final(self).call == old(self).call,
    {
        let mut store = Store::new();
        store.older_content = self.store.older_content;
        self.store = store;
        self.thumbs.asked = 0;
        self.screen.open = false;
        self.screen.selected = 0;
        self.scroll.list = 0;
        self.scroll.conversation = 0;
        self.lists.calls = Vec::new();
        self.lists.favorites = Vec::new();
        self.lists.stories = Vec::new();
        self.lists.contacts = Vec::new();
        self.lists.channels = Vec::new();
        self.lists.suggestions = Vec::new();
        self.screen.new_chat = false;
        self.scroll.panel = 0;
        self.update_visible();
        if self.store.visible.len() > 0 {
            assert(self.store.visible@.contains(self.store.visible@[0]));
            assert(!crate::chat_lists::shown(self.store.conversations@[self.store.visible@[0] as int], self.screen.unread_only,
                self.boxes.search@.text));
        }
    }

    /// `mm:ss` (or `h:mm:ss`) of the active call at `now` (seconds since 1970).
    pub fn call_clock_at(&self, now: i64) -> (clock: String)
        ensures
            clock@ == call_clock_text(elapsed(now as int, self.call.since as int)),
    {
        let elapsed: i128 = (now as i128) - (self.call.since as i128);
        let seconds: i128 = if elapsed > 0 { elapsed } else { 0 };
        let hours: i128 = seconds / 3600;
        let minutes: i128 = seconds / 60 % 60;
        let secs: i128 = seconds % 60;
        let mut out: Vec<char> = Vec::new();
        if hours > 0 {
            out.push(crate::text::digit_char((hours % 10) as u64));
            out.push(':');
        }
        out.push(crate::text::digit_char((minutes / 10) as u64));
        out.push(crate::text::digit_char((minutes % 10) as u64));
        out.push(':');
        out.push(crate::text::digit_char((secs / 10) as u64));
        out.push(crate::text::digit_char((secs % 10) as u64));
        assert(out@ =~= call_clock_text(seconds as int));
        string_of(out.as_slice())
    }

    /// `mm:ss` (or `h:mm:ss`) of the active call, now.
    pub fn call_clock(&self) -> (clock: String)
        ensures
            exists|now: i64| clock@ == #[trigger] call_clock_text(elapsed(now as int, self.call.since as int)),
    {
        let now = crate::chat::now_seconds();
        self.call_clock_at(now)
    }
}

} // verus!
