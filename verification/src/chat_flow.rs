//! What the core tells the chat screen about conversations and messages, and how far the open
//! conversation scrolls.

use vstd::prelude::*;
use crate::chat::{Chat, sent, two_digit};
use crate::chat_lists::{list_order, overflow, smaller, clamped, panel_content};
use crate::chat_messages::{layout_of, height_of, viewport_of, CONVERSATION_SCROLL_STEP};
use crate::items::{Message, Delivery, MAX_CHATS, MESSAGE_CAPACITY, NAME_CAPACITY, STATUS_CAPACITY, TIME_CAPACITY, ID_CAPACITY, TALLY,
    store, split_stamp, stamp_of, stamp_day};
use crate::layout::{ROW_H, LIST_TOP, HEADER_H, INPUT_H};
use crate::screen::{Store, Scroll, Screen, message_wf, MAX_MESSAGES};
use crate::text::{fit, byte_len, lemma_fit, string_of, chars_of, digit_char};
use crate::field::lemma_bytes_bound_len;

verus! {

/// `m` is a message just written: to `chat`, its text, time, day and ids as given (cut to their
/// room), no reactions, no mark, nothing carried, no preview.
pub open spec fn fresh(m: Message, chat: usize, outgoing: bool, delivery: Delivery, text: Seq<char>, time: Seq<char>, day: u16,
    id: Seq<char>, reply: Seq<char>) -> bool
{
    &&& m.chat == chat as u8 && m.outgoing == outgoing && m.delivery == delivery
    &&& m.text@ == fit(text, MESSAGE_CAPACITY as nat) && m.time@ == time && m.day == day
    &&& m.id@ == fit(id, ID_CAPACITY as nat) && m.reply@ == fit(reply, ID_CAPACITY as nat)
    &&& m.tally@ == seq![0u32, 0u32, 0u32] && m.counts@ == seq![0u8, 0u8, 0u8] && m.mine == 0
    &&& !m.deleted && !m.starred && m.kind == 0 && m.label@.len() == 0 && m.thumb == 0
}

/// The messages after one is added: the oldest goes when they are `MAX_MESSAGES` already.
pub open spec fn kept_messages(messages: Seq<Message>) -> Seq<Message> {
    if messages.len() >= MAX_MESSAGES { messages.drop_first() } else { messages }
}

proof fn lemma_fit_chars(s: Seq<char>, capacity: nat)
    ensures
        fit(s, capacity).len() <= capacity,
        byte_len(fit(s, capacity)) <= capacity,
{
    lemma_fit(s, capacity);
    lemma_bytes_bound_len(fit(s, capacity));
}

/// The lines as text.
pub open spec fn texts(lines: Seq<String>) -> Seq<Seq<char>> {
    lines.map_values(|s: String| s@)
}

/// The `MARKREAD` lines for the conversations before `k` that are in use and have something unread,
/// in order.
pub open spec fn read_lines(conversations: Seq<crate::items::Conversation>, k: int) -> Seq<Seq<char>>
    decreases k,
{
    if k <= 0 {
        Seq::empty()
    } else {
        let c = conversations[k - 1];
        read_lines(conversations, k - 1) + (if c.used && c.unread != 0 { seq!["MARKREAD\t"@ + two_digit(k - 1)] } else { Seq::empty() })
    }
}


/// The view scrolled to the newest message.
pub open spec fn scrolled_to_bottom(prior: Chat, next: Chat) -> bool {
    &&& next == (Chat { scroll: Scroll { conversation: overflow(layout_of(&prior).1, viewport_of(&prior)) as i32,
        below_count: 0, ..prior.scroll }, ..prior })
}

/// The conversation scrolled by `notches` of the wheel, within its content; no message flashes.
pub open spec fn view_scrolled(prior: Chat, next: Chat, notches: i32) -> bool {
    &&& ({
        let max = overflow(layout_of(&prior).1, viewport_of(&prior));
        let scrolled = clamped(prior.scroll.conversation + notches * CONVERSATION_SCROLL_STEP, 0, max);
        &&& next.scroll.conversation == scrolled
        &&& next.scroll.below_count == (if scrolled >= max - 8 { 0 } else { prior.scroll.below_count })
        &&& next == (Chat { marks: crate::screen::Marks { flash: None, ..prior.marks },
            scroll: Scroll { conversation: next.scroll.conversation, below_count: next.scroll.below_count, ..prior.scroll },
            ..prior })
    })
}

/// Every conversation marked read, the core told of each that had unread messages.
pub open spec fn all_marked_read(prior: Chat, next: Chat) -> bool {
    &&& forall|i: int| 0 <= i < MAX_CHATS ==> (#[trigger] next.store.conversations@[i]) ==
        (if prior.store.conversations@[i].used {
            crate::items::Conversation { unread: 0, ..prior.store.conversations@[i] }
        } else {
            prior.store.conversations@[i]
        })
    &&& next.outbox@.len() >= prior.outbox@.len()
    &&& next.outbox@.take(prior.outbox@.len() as int) == prior.outbox@
    &&& texts(next.outbox@) == texts(prior.outbox@) + read_lines(prior.store.conversations@, MAX_CHATS as int)
        + (if prior.screen.new_chat { seq!["CONTACTS\t"@ + prior.boxes.search@.text] } else { Seq::empty() })
    &&& list_order(next.store.conversations@, prior.screen.unread_only, prior.boxes.search@.text, next.store.visible@)
    &&& next.screen == prior.screen && next.lists == prior.lists && next.boxes == prior.boxes
    &&& next.store.messages == prior.store.messages
}

impl Chat {
    /// Adds a message at the end (the oldest goes when they are `MAX_MESSAGES`), with the height
    /// its bubble needs.
    pub fn push_message(&mut self, chat: usize, outgoing: bool, delivery: Delivery, text: &str, time: String, day: u16, id: &str,
        reply: &str)
        requires
            old(self).wf(),
            chat < MAX_CHATS,
            time@.len() == 5,
        ensures
            final(self).wf(),
            final(self).store.messages@.len() == kept_messages(old(self).store.messages@).len() + 1,
            final(self).store.messages@.drop_last() == kept_messages(old(self).store.messages@),
            fresh(final(self).store.messages@.last(), chat, outgoing, delivery, text@, time@, day, id@, reply@),
            final(self).store.messages@.last().height == height_of(&final(self).font, &final(self).store,
                final(self).scroll.text_limit as int, final(self).store.messages@.last()),
            *final(self) == (Chat { store: Store { messages: final(self).store.messages, ..old(self).store }, ..*old(self) }),
    {
        if self.store.messages.len() == MAX_MESSAGES {
            self.store.messages.remove(0);
            assert(self.store.messages@ =~= old(self).store.messages@.drop_first());
        }
        let ghost kept = self.store.messages@;
        proof {
            lemma_fit_chars(text@, MESSAGE_CAPACITY as nat);
            lemma_fit_chars(id@, ID_CAPACITY as nat);
            lemma_fit_chars(reply@, ID_CAPACITY as nat);
        }
        let message = Message {
            chat: chat as u8,
            outgoing,
            delivery,
            time,
            height: 0,
            text: store(text, MESSAGE_CAPACITY),
            id: store(id, ID_CAPACITY),
            reply: store(reply, ID_CAPACITY),
            tally: [0; TALLY],
            counts: [0; TALLY],
            mine: 0,
            deleted: false,
            starred: false,
            day,
            kind: 0,
            media_w: 0,
            media_h: 0,
            label: String::new(),
            thumb: 0,
            slot: 0,
        };
        assert(message.tally@ =~= seq![0u32, 0u32, 0u32]);
        assert(message.counts@ =~= seq![0u8, 0u8, 0u8]);
        self.store.messages.push(message);
        assert(self.store.messages@.drop_last() =~= kept);
        proof {
            assert forall|i: int| 0 <= i < self.store.messages@.len() implies message_wf(#[trigger] self.store.messages@[i]) by {
                if i < kept.len() {
                    assert(kept[i] == old(self).store.messages@[if old(self).store.messages@.len() >= MAX_MESSAGES { i + 1 } else { i }]);
                }
            }
        }
        let last = self.store.messages.len() - 1;
        self.recompute_height(last);
        assert(self.store.messages@.drop_last() =~= kept);
    }

    /// How far the open conversation scrolls: its content less what the viewport shows.
    pub fn max_conversation_scroll(&self) -> (max: i32)
        requires
            self.wf(),
        ensures
            max == overflow(layout_of(self).1, viewport_of(self)),
            0 <= max <= 0x1000_0000,
    {
        let content = self.place().1;
        let view = self.viewport_height();
        if content - view > 0 { content - view } else { 0 }
    }

    /// Whether the conversation is scrolled to its newest message (or close enough).
    pub fn at_bottom(&self) -> (bottom: bool)
        requires
            self.wf(),
        ensures
            bottom == (self.scroll.conversation >= overflow(layout_of(self).1, viewport_of(self)) - 8),
    {
        self.scroll.conversation >= self.max_conversation_scroll() - 8
    }

    pub fn scroll_to_bottom(&mut self)
        requires
            old(self).wf(),
        ensures
            final(self).wf(),
            scrolled_to_bottom(*old(self), *final(self)),
    {
        self.scroll.conversation = self.max_conversation_scroll();
        self.scroll.below_count = 0;
    }

    /// Scrolls the open conversation by `notches` of the wheel, within its content.
    pub fn scroll_conversation(&mut self, notches: i32)
        requires
            old(self).wf(),
            -0x10_0000 <= notches <= 0x10_0000,
        ensures
            final(self).wf(),
            view_scrolled(*old(self), *final(self), notches),
    {
        self.marks.flash = None;
        let max = self.max_conversation_scroll();
        let wanted = self.scroll.conversation + notches * CONVERSATION_SCROLL_STEP;
        self.scroll.conversation = if wanted < 0 { 0 } else if wanted > max { max } else { wanted };
        if self.scroll.conversation >= max - 8 {
            self.scroll.below_count = 0;
        }
    }

    /// Puts `chat` at the top of the list.
    pub fn bump(&mut self, chat: usize)
        requires
            old(self).wf(),
            chat < MAX_CHATS,
        ensures
            final(self).wf(),
            final(self).store.conversations@ == old(self).store.conversations@.update(chat as int,
                crate::items::Conversation { rank: old(self).store.next_live_rank, ..old(self).store.conversations@[chat as int] }),
            final(self).store.next_live_rank == old(self).store.next_live_rank.wrapping_add(1),
            list_order(final(self).store.conversations@, old(self).screen.unread_only, old(self).boxes.search@.text, final(self).store.visible@),
            final(self).store == (Store { conversations: final(self).store.conversations, visible: final(self).store.visible,
                next_live_rank: final(self).store.next_live_rank, ..old(self).store }),
            old(self).screen.new_chat ==> sent(old(self).outbox@, final(self).outbox@, "CONTACTS\t"@ + old(self).boxes.search@.text),
            !old(self).screen.new_chat ==> final(self).outbox == old(self).outbox,
            *final(self) == (Chat { store: final(self).store, scroll: Scroll { list: final(self).scroll.list, panel: final(self).scroll.panel,
                ..old(self).scroll }, outbox: final(self).outbox, ..*old(self) }),
    {
        self.store.conversations[chat].rank = self.store.next_live_rank;
        self.store.next_live_rank = self.store.next_live_rank.wrapping_add(1);
        proof {
            assert forall|i: int| 0 <= i < MAX_CHATS implies (#[trigger] self.store.conversations@[i]).draft@.len() <= MESSAGE_CAPACITY
                && self.store.conversations@[i].name@.len() <= NAME_CAPACITY by {
                assert(old(self).store.conversations@[i].draft@.len() <= MESSAGE_CAPACITY);
            }
        }
        self.update_visible();
    }

    /// Only the line under the name in the conversation header changes: "online", "digitando…"...
    pub fn set_status(&mut self, id: usize, status: &str)
        requires
            old(self).wf(),
        ensures
            final(self).wf(),
            (id >= MAX_CHATS || !old(self).store.conversations@[id as int].used) ==> *final(self) == *old(self),
            (id < MAX_CHATS && old(self).store.conversations@[id as int].used) ==> ({
                &&& final(self).store.conversations@.len() == MAX_CHATS
                &&& final(self).store.conversations@[id as int].status@ == fit(status@, STATUS_CAPACITY as nat)
                &&& final(self).store.conversations@[id as int] == (crate::items::Conversation {
                    status: final(self).store.conversations@[id as int].status, ..old(self).store.conversations@[id as int] })
                &&& forall|i: int| 0 <= i < MAX_CHATS && i != id ==> final(self).store.conversations@[i] == old(self).store.conversations@[i]
                &&& *final(self) == (Chat { store: Store { conversations: final(self).store.conversations, ..old(self).store }, ..*old(self) })
            }),
    {
        if id < MAX_CHATS && self.store.conversations[id].used {
            self.store.conversations[id].status = store(status, STATUS_CAPACITY);
            proof {
                assert forall|i: int| 0 <= i < MAX_CHATS implies (#[trigger] self.store.conversations@[i]).draft@.len() <= MESSAGE_CAPACITY
                    && self.store.conversations@[i].name@.len() <= NAME_CAPACITY by {
                    assert(old(self).store.conversations@[i].draft@.len() <= MESSAGE_CAPACITY);
                }
            }
        }
    }

    /// The history is loaded: from now on, incoming messages in other conversations are unread.
    pub fn go_live(&mut self)
        ensures
            *final(self) == (Chat { store: Store { live: true, ..old(self).store }, ..*old(self) }),
    {
        self.store.live = true;
    }

    /// How many messages wait unread across all conversations.
    pub fn unread_total(&self) -> (total: usize)
        requires
            self.wf(),
        ensures
            total == unread_sum(self.store.conversations@),
    {
        let conversations = &self.store.conversations;
        let mut total: usize = 0;
        let mut i: usize = 0;
        while i < conversations.len()
            invariant
                0 <= i <= conversations@.len(),
                conversations@.len() == MAX_CHATS,
                conversations@ == self.store.conversations@,
                total == unread_sum(conversations@.take(i as int)),
                total <= 255 * i,
            decreases conversations@.len() - i,
        {
            assert(conversations@.take(i + 1).drop_last() =~= conversations@.take(i as int));
            if conversations[i].used {
                total = total + conversations[i].unread as usize;
            }
            i = i + 1;
        }
        assert(conversations@.take(i as int) =~= conversations@);
        total
    }

    /// The other side read everything we sent in `chat`.
    pub fn mark_read(&mut self, chat: usize)
        requires
            old(self).wf(),
        ensures
            final(self).wf(),
            final(self).store.messages@.len() == old(self).store.messages@.len(),
            forall|i: int| 0 <= i < old(self).store.messages@.len() ==> #[trigger] final(self).store.messages@[i] ==
                (if old(self).store.messages@[i].chat as int == chat && old(self).store.messages@[i].outgoing {
                    Message { delivery: Delivery::Read, ..old(self).store.messages@[i] }
                } else {
                    old(self).store.messages@[i]
                }),
            *final(self) == (Chat { store: Store { messages: final(self).store.messages, ..old(self).store }, ..*old(self) }),
    {
        let mut i: usize = 0;
        while i < self.store.messages.len()
            invariant
                0 <= i <= self.store.messages@.len(),
                self.store.messages@.len() == old(self).store.messages@.len(),
                forall|j: int| 0 <= j < i ==> #[trigger] self.store.messages@[j] ==
                    (if old(self).store.messages@[j].chat as int == chat && old(self).store.messages@[j].outgoing {
                        Message { delivery: Delivery::Read, ..old(self).store.messages@[j] }
                    } else {
                        old(self).store.messages@[j]
                    }),
                forall|j: int| i <= j < self.store.messages@.len() ==> #[trigger] self.store.messages@[j] == old(self).store.messages@[j],
                *self == (Chat { store: Store { messages: self.store.messages, ..old(self).store }, ..*old(self) }),
            decreases self.store.messages@.len() - i,
        {
            if self.store.messages[i].chat as usize == chat && self.store.messages[i].outgoing {
                self.store.messages[i].delivery = Delivery::Read;
            }
            i = i + 1;
        }
        proof {
            assert forall|j: int| 0 <= j < self.store.messages@.len() implies message_wf(#[trigger] self.store.messages@[j]) by {
                assert(message_wf(old(self).store.messages@[j]));
            }
        }
    }

    /// The other side's phone got what we sent in `chat`.
    pub fn mark_delivered(&mut self, chat: usize)
        requires
            old(self).wf(),
        ensures
            final(self).wf(),
            final(self).store.messages@.len() == old(self).store.messages@.len(),
            forall|i: int| 0 <= i < old(self).store.messages@.len() ==> #[trigger] final(self).store.messages@[i] ==
                (if old(self).store.messages@[i].chat as int == chat && old(self).store.messages@[i].outgoing
                    && old(self).store.messages@[i].delivery == Delivery::Sent {
                    Message { delivery: Delivery::Delivered, ..old(self).store.messages@[i] }
                } else {
                    old(self).store.messages@[i]
                }),
            *final(self) == (Chat { store: Store { messages: final(self).store.messages, ..old(self).store }, ..*old(self) }),
    {
        let mut i: usize = 0;
        while i < self.store.messages.len()
            invariant
                0 <= i <= self.store.messages@.len(),
                self.store.messages@.len() == old(self).store.messages@.len(),
                forall|j: int| 0 <= j < i ==> #[trigger] self.store.messages@[j] ==
                    (if old(self).store.messages@[j].chat as int == chat && old(self).store.messages@[j].outgoing
                        && old(self).store.messages@[j].delivery == Delivery::Sent {
                        Message { delivery: Delivery::Delivered, ..old(self).store.messages@[j] }
                    } else {
                        old(self).store.messages@[j]
                    }),
                forall|j: int| i <= j < self.store.messages@.len() ==> #[trigger] self.store.messages@[j] == old(self).store.messages@[j],
                *self == (Chat { store: Store { messages: self.store.messages, ..old(self).store }, ..*old(self) }),
            decreases self.store.messages@.len() - i,
        {
            if self.store.messages[i].chat as usize == chat && self.store.messages[i].outgoing && self.store.messages[i].delivery == Delivery::Sent {
                self.store.messages[i].delivery = Delivery::Delivered;
            }
            i = i + 1;
        }
        proof {
            assert forall|j: int| 0 <= j < self.store.messages@.len() implies message_wf(#[trigger] self.store.messages@[j]) by {
                assert(message_wf(old(self).store.messages@[j]));
            }
        }
    }

    /// The last message of `chat`, if it has any.
    pub fn last_message(&self, chat: usize) -> (message: Option<&Message>)
        ensures
            match last_of(self.store.messages@, chat as int) {
                Some(i) => message == Some(&self.store.messages@[i]),
                None => message is None,
            },
    {
        let messages = &self.store.messages;
        let mut i: usize = messages.len();
        assert(messages@.take(i as int) =~= messages@);
        while i > 0
            invariant
                0 <= i <= messages@.len(),
                messages@ == self.store.messages@,
                last_of(messages@, chat as int) == last_of(messages@.take(i as int), chat as int),
            decreases i,
        {
            assert(messages@.take(i as int).drop_last() =~= messages@.take(i - 1));
            if messages[i - 1].chat as usize == chat {
                return Some(&messages[i - 1]);
            }
            i = i - 1;
        }
        None
    }

    /// The core describes conversation `id`: whether it has unread messages, its time, name and
    /// status line. The first one described becomes the selected one; a new one goes at the top of
    /// the list when the history is loaded, else after the ones from the history before it.
    #[verifier::spinoff_prover]
    #[verifier::rlimit(80)]
    pub fn set_conversation(&mut self, id: usize, unread: u8, time: &str, name: &str, status: &str)
        requires
            old(self).wf(),
        ensures
            final(self).wf(),
            id >= MAX_CHATS ==> *final(self) == *old(self),
            id < MAX_CHATS ==> ({
                let before = old(self).store.conversations@[id as int];
                let first = forall|i: int| 0 <= i < MAX_CHATS ==> !(#[trigger] old(self).store.conversations@[i]).used;
                let after = final(self).store.conversations@[id as int];
                &&& after.used && after.unread == unread && after.silenced == before.silenced && after.draft == before.draft
                &&& after.time@ == fit(time@, TIME_CAPACITY as nat) && after.name@ == fit(name@, NAME_CAPACITY as nat)
                &&& after.status@ == fit(status@, STATUS_CAPACITY as nat)
                &&& after.rank == (if before.used { before.rank } else if old(self).store.live { old(self).store.next_live_rank }
                    else { old(self).store.next_history_rank })
                &&& final(self).store.next_history_rank == (if !before.used && !old(self).store.live {
                    old(self).store.next_history_rank.saturating_sub(1) } else { old(self).store.next_history_rank })
                &&& final(self).store.next_live_rank == (if !before.used && old(self).store.live {
                    old(self).store.next_live_rank.wrapping_add(1) } else { old(self).store.next_live_rank })
                &&& final(self).store.conversations@.len() == MAX_CHATS
                &&& forall|i: int| 0 <= i < MAX_CHATS && i != id ==> final(self).store.conversations@[i] == old(self).store.conversations@[i]
                &&& final(self).screen == (Screen { selected: if first { id } else { old(self).screen.selected }, ..old(self).screen })
                &&& list_order(final(self).store.conversations@, old(self).screen.unread_only, old(self).boxes.search@.text, final(self).store.visible@)
                &&& final(self).store == (Store { conversations: final(self).store.conversations, visible: final(self).store.visible,
                    next_live_rank: final(self).store.next_live_rank, next_history_rank: final(self).store.next_history_rank, ..old(self).store })
                &&& *final(self) == (Chat { store: final(self).store, screen: final(self).screen,
                    scroll: Scroll { list: final(self).scroll.list, panel: final(self).scroll.panel, ..old(self).scroll },
                    outbox: final(self).outbox, ..*old(self) })
            }),
    {
        if id >= MAX_CHATS {
            return;
        }
        let mut first = true;
        let mut i: usize = 0;
        while i < MAX_CHATS
            invariant
                0 <= i <= MAX_CHATS,
                self.store.conversations@.len() == MAX_CHATS,
                first == forall|j: int| 0 <= j < i ==> !(#[trigger] self.store.conversations@[j]).used,
            decreases MAX_CHATS - i,
        {
            if self.store.conversations[i].used {
                first = false;
            }
            i = i + 1;
        }
        let is_new = !self.store.conversations[id].used;
        self.store.conversations[id].used = true;
        self.store.conversations[id].unread = unread;
        self.store.conversations[id].time = store(time, TIME_CAPACITY);
        self.store.conversations[id].name = store(name, NAME_CAPACITY);
        self.store.conversations[id].status = store(status, STATUS_CAPACITY);
        proof {
            lemma_fit_chars(name@, NAME_CAPACITY as nat);
            assert forall|i: int| 0 <= i < MAX_CHATS implies (#[trigger] self.store.conversations@[i]).draft@.len() <= MESSAGE_CAPACITY
                && self.store.conversations@[i].name@.len() <= NAME_CAPACITY by {
                assert(old(self).store.conversations@[i].draft@.len() <= MESSAGE_CAPACITY);
            }
        }
        if first {
            self.screen.selected = id;
        }
        if is_new {
            if self.store.live {
                self.bump(id);
                return;
            } else {
                self.store.conversations[id].rank = self.store.next_history_rank;
                self.store.next_history_rank = self.store.next_history_rank.saturating_sub(1);
                proof {
                    assert forall|i: int| 0 <= i < MAX_CHATS implies (#[trigger] self.store.conversations@[i]).draft@.len() <= MESSAGE_CAPACITY
                        && self.store.conversations@[i].name@.len() <= NAME_CAPACITY by {
                        assert(old(self).store.conversations@[i].draft@.len() <= MESSAGE_CAPACITY);
                    }
                }
            }
        }
        self.update_visible();
    }

    /// Nothing waits unread in `chat` any more; the core is told (`MARKREAD chat`) when something did.
    pub fn read_chat(&mut self, chat: usize)
        requires
            old(self).wf(),
            chat < MAX_CHATS,
        ensures
            final(self).wf(),
            old(self).store.conversations@[chat as int].unread == 0 ==> *final(self) == *old(self),
            old(self).store.conversations@[chat as int].unread != 0 ==> ({
                &&& final(self).store.conversations@ == old(self).store.conversations@.update(chat as int,
                    crate::items::Conversation { unread: 0, ..old(self).store.conversations@[chat as int] })
                &&& sent(old(self).outbox@, final(self).outbox@, "MARKREAD\t"@ + two_digit(chat as int))
                &&& *final(self) == (Chat { store: Store { conversations: final(self).store.conversations, ..old(self).store },
                    outbox: final(self).outbox, ..*old(self) })
            }),
    {
        if self.store.conversations[chat].unread == 0 {
            return;
        }
        self.store.conversations[chat].unread = 0;
        proof {
            assert forall|i: int| 0 <= i < MAX_CHATS implies (#[trigger] self.store.conversations@[i]).draft@.len() <= MESSAGE_CAPACITY
                && self.store.conversations@[i].name@.len() <= NAME_CAPACITY by {
                assert(old(self).store.conversations@[i].draft@.len() <= MESSAGE_CAPACITY);
            }
        }
        let mut line = chars_of("MARKREAD\t");
        line.push(digit_char((chat / 10) as u64));
        line.push(digit_char((chat % 10) as u64));
        proof { reveal_strlit("MARKREAD\t"); }
        assert(line@ =~= "MARKREAD\t"@ + two_digit(chat as int));
        self.tell_core(string_of(line.as_slice()));
    }

    /// "Marcar todas como lidas" of the menu: every conversation is read, and the core is told of
    /// each one that had something unread.
    pub fn mark_all_read(&mut self)
        requires
            old(self).wf(),
        ensures
            final(self).wf(),
            all_marked_read(*old(self), *final(self)),
    {
        let mut chat: usize = 0;
        while chat < MAX_CHATS
            invariant
                0 <= chat <= MAX_CHATS,
                self.wf(),
                self.store.conversations@.len() == MAX_CHATS,
                forall|i: int| 0 <= i < chat ==> (#[trigger] self.store.conversations@[i]) ==
                    (if old(self).store.conversations@[i].used {
                        crate::items::Conversation { unread: 0, ..old(self).store.conversations@[i] }
                    } else {
                        old(self).store.conversations@[i]
                    }),
                forall|i: int| chat <= i < MAX_CHATS ==> #[trigger] self.store.conversations@[i] == old(self).store.conversations@[i],
                self.outbox@.len() >= old(self).outbox@.len(),
                self.outbox@.take(old(self).outbox@.len() as int) == old(self).outbox@,
                texts(self.outbox@) == texts(old(self).outbox@) + read_lines(old(self).store.conversations@, chat as int),
                self.screen == old(self).screen && self.lists == old(self).lists && self.boxes == old(self).boxes,
                self.store.messages == old(self).store.messages,
            decreases MAX_CHATS - chat,
        {
            let ghost before = self.outbox@;
            let ghost c = old(self).store.conversations@[chat as int];
            if self.store.conversations[chat].used {
                self.read_chat(chat);
                assert(self.outbox@.take(old(self).outbox@.len() as int) =~= before.take(old(self).outbox@.len() as int));
                proof {
                    if c.unread != 0 {
                        assert(texts(self.outbox@) =~= texts(before).push("MARKREAD\t"@ + two_digit(chat as int)));
                    }
                }
            }
            assert(read_lines(old(self).store.conversations@, chat + 1) =~= read_lines(old(self).store.conversations@, chat as int)
                + (if c.used && c.unread != 0 { seq!["MARKREAD\t"@ + two_digit(chat as int)] } else { Seq::empty() }));
            chat = chat + 1;
        }
        let ghost before = self.outbox@;
        self.update_visible();
        assert(self.outbox@.take(old(self).outbox@.len() as int) =~= before.take(old(self).outbox@.len() as int));
        proof {
            if old(self).screen.new_chat {
                assert(texts(self.outbox@) =~= texts(before).push("CONTACTS\t"@ + old(self).boxes.search@.text));
            } else {
                assert(texts(self.outbox@) =~= texts(before) + Seq::empty());
            }
            assert(texts(self.outbox@) =~= texts(old(self).outbox@) + read_lines(old(self).store.conversations@, MAX_CHATS as int)
                + (if old(self).screen.new_chat { seq!["CONTACTS\t"@ + old(self).boxes.search@.text] } else { Seq::empty() }));
        }
    }

    /// A message from the core, on day `today`. An incoming one in a conversation that is not open
    /// counts as unread once the history is loaded; a conversation with news goes to the top; the
    /// view follows the newest message when it was at the bottom, else counts what arrived below.
    #[verifier::spinoff_prover]
    #[verifier::rlimit(80)]
    pub fn receive_on(&mut self, chat: usize, outgoing: bool, read: bool, time: &str, id: &str, reply: &str, text: &str, today: u16)
        requires
            old(self).wf(),
        ensures
            final(self).wf(),
            (chat >= MAX_CHATS || !old(self).store.conversations@[chat as int].used) ==> *final(self) == *old(self),
            (chat < MAX_CHATS && old(self).store.conversations@[chat as int].used) ==> ({
                let day = if stamp_day(time@) == 0 { today } else { stamp_day(time@) };
                let at_bottom = chat == old(self).screen.selected
                    && old(self).scroll.conversation >= overflow(layout_of(old(self)).1, viewport_of(old(self))) - 8;
                let news = old(self).store.live && !outgoing && chat != old(self).screen.selected;
                let before = old(self).store.conversations@[chat as int];
                let after = final(self).store.conversations@[chat as int];
                &&& final(self).store.messages@.drop_last() == kept_messages(old(self).store.messages@)
                &&& final(self).store.messages@.len() == kept_messages(old(self).store.messages@).len() + 1
                &&& fresh(final(self).store.messages@.last(), chat, outgoing, if read { Delivery::Read } else { Delivery::Delivered },
                    text@, stamp_of(time@), day, id@, reply@)
                &&& after == (crate::items::Conversation {
                    unread: if news { before.unread.saturating_add(1) } else { before.unread },
                    rank: if old(self).store.live { old(self).store.next_live_rank } else { before.rank },
                    ..before })
                &&& final(self).store.conversations@.len() == MAX_CHATS
                &&& forall|i: int| 0 <= i < MAX_CHATS && i != chat ==> final(self).store.conversations@[i] == old(self).store.conversations@[i]
                &&& final(self).store.next_live_rank == (if old(self).store.live { old(self).store.next_live_rank.wrapping_add(1) }
                    else { old(self).store.next_live_rank })
                &&& old(self).store.live ==> list_order(final(self).store.conversations@, old(self).screen.unread_only,
                    old(self).boxes.search@.text, final(self).store.visible@)
                &&& !old(self).store.live ==> final(self).store.visible == old(self).store.visible
                &&& at_bottom ==> final(self).scroll.conversation == overflow(layout_of(final(self)).1, viewport_of(final(self)))
                &&& !at_bottom ==> final(self).scroll.conversation == old(self).scroll.conversation
                &&& final(self).scroll.below_count == (if !at_bottom && old(self).store.live && !outgoing && chat == old(self).screen.selected
                    && old(self).screen.open { old(self).scroll.below_count.saturating_add(1) } else { old(self).scroll.below_count })
                &&& final(self).screen == old(self).screen && final(self).lists == old(self).lists && final(self).boxes == old(self).boxes
                &&& final(self).marks == old(self).marks && final(self).call == old(self).call && final(self).dialog == old(self).dialog
                &&& final(self).finder == old(self).finder && final(self).history == old(self).history
            }),
    {
        if chat >= MAX_CHATS || !self.store.conversations[chat].used {
            return;
        }
        let at_bottom = chat == self.screen.selected && self.scroll.conversation >= self.max_conversation_scroll() - 8;
        let (stamp, day) = split_stamp(time);
        let day = if day == 0 { today } else { day };
        let delivery = if read { Delivery::Read } else { Delivery::Delivered };
        self.push_message(chat, outgoing, delivery, text, stamp, day, id, reply);
        let ghost pushed = self.store.messages@;
        if self.store.live && !outgoing && chat != self.screen.selected {
            let unread = self.store.conversations[chat].unread;
            self.store.conversations[chat].unread = unread.saturating_add(1);
            proof {
                assert forall|i: int| 0 <= i < MAX_CHATS implies (#[trigger] self.store.conversations@[i]).draft@.len() <= MESSAGE_CAPACITY
                    && self.store.conversations@[i].name@.len() <= NAME_CAPACITY by {
                    assert(old(self).store.conversations@[i].draft@.len() <= MESSAGE_CAPACITY);
                }
            }
        }
        if self.store.live {
            self.bump(chat);
        }
        if at_bottom {
            self.scroll.conversation = self.max_conversation_scroll();
        } else if self.store.live && !outgoing && chat == self.screen.selected && self.screen.open {
            self.scroll.below_count = self.scroll.below_count.saturating_add(1);
        }
    }

    /// A message from the core, today.
    pub fn receive(&mut self, chat: usize, outgoing: bool, read: bool, time: &str, id: &str, reply: &str, text: &str)
        requires
            old(self).wf(),
        ensures
            final(self).wf(),
            (chat >= MAX_CHATS || !old(self).store.conversations@[chat as int].used) ==> *final(self) == *old(self),
            (chat < MAX_CHATS && old(self).store.conversations@[chat as int].used) ==> ({
                &&& final(self).store.messages@.drop_last() == kept_messages(old(self).store.messages@)
                &&& final(self).store.messages@.len() == kept_messages(old(self).store.messages@).len() + 1
                &&& exists|today: u16| fresh(final(self).store.messages@.last(), chat, outgoing, delivery_of(read),
                    text@, stamp_of(time@), #[trigger] message_day(time@, today), id@, reply@)
            }),
    {
        let today = crate::dates::today();
        self.receive_on(chat, outgoing, read, time, id, reply, text, today);
        proof {
            if chat < MAX_CHATS && old(self).store.conversations@[chat as int].used {
                assert(fresh(self.store.messages@.last(), chat, outgoing, delivery_of(read), text@, stamp_of(time@),
                    message_day(time@, today), id@, reply@));
            }
        }
    }
}

/// The day of a message with `time`, on day `today`: the day the time names, else today.
pub open spec fn message_day(time: Seq<char>, today: u16) -> u16 {
    if stamp_day(time) == 0 { today } else { stamp_day(time) }
}

pub open spec fn delivery_of(read: bool) -> Delivery {
    if read { Delivery::Read } else { Delivery::Delivered }
}

/// The number of the last message of `chat` among `messages`.
pub open spec fn last_of(messages: Seq<Message>, chat: int) -> Option<int>
    decreases messages.len(),
{
    if messages.len() == 0 {
        None
    } else if messages.last().chat as int == chat {
        Some(messages.len() - 1)
    } else {
        last_of(messages.drop_last(), chat)
    }
}

/// How many messages wait unread in the conversations that are used.
pub open spec fn unread_sum(conversations: Seq<crate::items::Conversation>) -> int
    decreases conversations.len(),
{
    if conversations.len() == 0 {
        0
    } else {
        unread_sum(conversations.drop_last()) + if conversations.last().used { conversations.last().unread as int } else { 0 }
    }
}

} // verus!
