//! What can be done to a message: favourite it, react to it, copy it, take it back, forward it; and
//! what the core says happened to one (its id, a new text, deletion, reactions, a favourite mark).

use vstd::prelude::*;
use crate::chat::{Chat, sent, two_digit};
use crate::chat_messages::{id_position, id_from, height_of};
use crate::items::{Message, MAX_CHATS, MESSAGE_CAPACITY, ID_CAPACITY, TALLY, store, with_mine, without_mine, place_for, tally_slot};
use crate::screen::{Store, Clipboard, message_wf};
use crate::text::{fit, byte_len, lemma_fit, string_of, chars_of, digit_char};
use crate::field::lemma_bytes_bound_len;

verus! {

proof fn lemma_fit_room(s: Seq<char>, capacity: nat)
    ensures
        fit(s, capacity).len() <= capacity,
        byte_len(fit(s, capacity)) <= capacity,
{
    lemma_fit(s, capacity);
    lemma_bytes_bound_len(fit(s, capacity));
}

/// The messages with message `index` replaced by `m`, all other messages as they were.
pub open spec fn replaced(before: Seq<Message>, after: Seq<Message>, index: int, m: Message) -> bool {
    &&& after.len() == before.len()
    &&& after[index] == m
    &&& forall|i: int| 0 <= i < before.len() && i != index ==> after[i] == before[i]
}

/// `line` written as the core reads it: `head`, the conversation in two digits, a tab and `id`.
pub open spec fn about(head: Seq<char>, chat: u8, id: Seq<char>) -> Seq<char> {
    head + two_digit(chat as int) + seq!['\t'] + id
}

impl Chat {
    /// The chat after message `index` changed to `m` (which keeps what the chat needs of it), with
    /// its height brought up to date.
    #[verifier::spinoff_prover]
    fn put_message(&mut self, index: usize, m: Message)
        requires
            old(self).wf(),
            index < old(self).store.messages@.len(),
            message_wf(m),
        ensures
            final(self).wf(),
            replaced(old(self).store.messages@, final(self).store.messages@, index as int,
                Message { height: final(self).store.messages@[index as int].height, ..m }),
            final(self).store.messages@[index as int].height
                == height_of(&final(self).font, &final(self).store, final(self).scroll.text_limit as int, final(self).store.messages@[index as int]),
            *final(self) == (Chat { store: Store { messages: final(self).store.messages, ..old(self).store }, ..*old(self) }),
    {
        let mut m = m;
        std::mem::swap(&mut self.store.messages[index], &mut m);
        proof {
            assert forall|i: int| 0 <= i < self.store.messages@.len() implies message_wf(#[trigger] self.store.messages@[i]) by {
                if i != index { assert(message_wf(old(self).store.messages@[i])); }
            }
        }
        self.recompute_height(index);
    }
}

/// What `react` does to the chat: our reaction to message `index` becomes `emoji` (the same one
/// again takes it back), and the core is told; a message without an id, or deleted, stays as it is.
pub open spec fn reacted(prior: Chat, next: Chat, index: int, emoji: char) -> bool {
    let before = prior.store.messages@[index];
    let code: u32 = if before.mine == emoji as u32 { 0 } else { emoji as u32 };
    let taken = without_mine(before.tally@, before.counts@, before.mine);
    let pill = if code == 0 { taken } else { with_mine(taken.0, taken.1, code) };
    &&& (before.id@.len() == 0 || before.deleted) ==> next == prior
    &&& !(before.id@.len() == 0 || before.deleted) ==> ({
        let after = next.store.messages@[index];
        &&& sent(prior.outbox@, next.outbox@,
            about("REACT\t"@, before.chat, before.id@) + seq!['\t'] + (if code == 0 { Seq::empty() } else { seq![emoji] }))
        &&& after.mine == code && (after.tally@, after.counts@) == pill
        &&& after == Message { mine: after.mine, tally: after.tally, counts: after.counts, height: after.height, ..before }
        &&& next.store.messages@.len() == prior.store.messages@.len()
        &&& forall|j: int| 0 <= j < prior.store.messages@.len() && j != index ==> next.store.messages@[j] == prior.store.messages@[j]
        &&& next == (Chat { store: Store { messages: next.store.messages, ..prior.store }, outbox: next.outbox, ..prior })
    })
}

/// Whether the pills of a message are in order: the used slots come first, each used by one to
/// 254 people, and the free slots count nobody.
pub open spec fn pills_in_order(tally: Seq<u32>, counts: Seq<u8>) -> bool {
    &&& tally.len() == TALLY && counts.len() == TALLY
    &&& forall|i: int, j: int| 0 <= i < j < TALLY && tally[i] == 0 ==> tally[j] == 0
    &&& forall|j: int| 0 <= j < TALLY ==> (tally[j] != 0 ==> 1 <= #[trigger] counts[j] < 255) && (tally[j] == 0 ==> counts[j] == 0)
}

/// Reacting twice with the same emoji to a message we had not reacted to takes the reaction back:
/// after the second time the message's pills are as they were, and the core was told the reaction
/// and then its removal, one line each. (The emoji needs a pill: one of its own or a free one.)
pub proof fn lemma_react_twice(c0: Chat, c1: Chat, c2: Chat, index: int, emoji: char)
    requires
        0 <= index < c0.store.messages@.len(),
        reacted(c0, c1, index, emoji),
        reacted(c1, c2, index, emoji),
        c0.store.messages@[index].id@.len() > 0 && !c0.store.messages@[index].deleted,
        c0.store.messages@[index].mine == 0 && emoji as u32 != 0,
        pills_in_order(c0.store.messages@[index].tally@, c0.store.messages@[index].counts@),
        exists|j: int| 0 <= j < TALLY && (c0.store.messages@[index].tally@[j] == emoji as u32 || c0.store.messages@[index].tally@[j] == 0),
    ensures
        c1.store.messages@[index].mine == emoji as u32,
        c2.store.messages@[index].mine == 0,
        c2.store.messages@[index].tally@ == c0.store.messages@[index].tally@,
        c2.store.messages@[index].counts@ == c0.store.messages@[index].counts@,
        c2.outbox@.len() == c0.outbox@.len() + 2,
        c2.outbox@.take(c0.outbox@.len() as int) == c0.outbox@,
        c2.outbox@[c0.outbox@.len() as int]@ == about("REACT\t"@, c0.store.messages@[index].chat, c0.store.messages@[index].id@)
            + seq!['\t'] + seq![emoji],
        c2.outbox@.last()@ == about("REACT\t"@, c0.store.messages@[index].chat, c0.store.messages@[index].id@) + seq!['\t'],
{
    let m = c0.store.messages@[index];
    let t = m.tally@;
    let n = m.counts@;
    let code = emoji as u32;
    let s = place_for(t, code);
    assert(0 <= s < TALLY && (t[s] == code || t[s] == 0) && forall|j: int| 0 <= j < s ==> t[j] != code && t[j] != 0);
    let m1 = c1.store.messages@[index];
    let t1 = t.update(s, code);
    assert(m1.tally@ == t1);
    assert(tally_slot(t1, code) == Some(s)) by {
        assert(t1[s] == code);
        let i = choose|i: int| 0 <= i < t1.len() && t1[i] == code && forall|j: int| 0 <= j < i ==> t1[j] != code;
        if i < s {
            assert(t1[i] == t[i]);
        } else if i > s {
            assert(t1[s] == code);
        }
    }
    let m2 = c2.store.messages@[index];
    if t[s] == code {
        assert(t1 =~= t);
        assert(m2.counts@ =~= n);
    } else {
        assert(forall|j: int| s <= j < TALLY ==> t[j] == 0);
        assert(m2.tally@ =~= t);
        assert(m2.counts@ =~= n);
    }
    assert(c2.outbox@.take(c1.outbox@.len() as int) == c1.outbox@);
    assert(c2.outbox@.take(c0.outbox@.len() as int) =~= c1.outbox@.take(c0.outbox@.len() as int));
    assert(c2.outbox@[c0.outbox@.len() as int] == c1.outbox@[c0.outbox@.len() as int]);
    let head = about("REACT\t"@, m.chat, m.id@) + seq!['\t'];
    assert(head + Seq::<char>::empty() =~= head);
}

/// Message `index` made a favourite or not.
pub open spec fn star_toggled(prior: Chat, next: Chat, index: usize) -> bool {
    &&& ({
        let before = prior.store.messages@[index as int];
        &&& (before.id@.len() == 0 || before.deleted) ==> next == prior
        &&& !(before.id@.len() == 0 || before.deleted) ==> ({
            &&& replaced(prior.store.messages@, next.store.messages@, index as int,
                Message { starred: !before.starred, height: next.store.messages@[index as int].height, ..before })
            &&& sent(prior.outbox@, next.outbox@,
                about("STAR\t"@, before.chat, before.id@) + seq!['\t', if before.starred { '0' } else { '1' }])
            &&& next == (Chat { store: Store { messages: next.store.messages, ..prior.store },
                outbox: next.outbox, ..prior })
        })
    })
}

/// The text of message `index` put on the clipboard.
pub open spec fn message_copied(prior: Chat, next: Chat, index: usize) -> bool {
    &&& next.clipboard.text@ == prior.store.messages@[index as int].text@
    &&& next == (Chat { clipboard: Clipboard { text: next.clipboard.text, pending: true, ..prior.clipboard }, ..prior })
}

impl Chat {
    /// A favourite mark set by the core (`STARRED chat id 1|0`).
    pub fn set_starred(&mut self, chat: usize, id: &str, starred: bool)
        requires
            old(self).wf(),
        ensures
            final(self).wf(),
            id_position(old(self).store.messages@, chat as u8, id@) is None ==> *final(self) == *old(self),
            id_position(old(self).store.messages@, chat as u8, id@) matches Some(i) ==> ({
                let before = old(self).store.messages@[i];
                &&& replaced(old(self).store.messages@, final(self).store.messages@, i,
                    Message { starred, height: final(self).store.messages@[i].height, ..before })
                &&& final(self).store.messages@[i].height == height_of(&final(self).font, &final(self).store,
                    final(self).scroll.text_limit as int, final(self).store.messages@[i])
                &&& *final(self) == (Chat { store: Store { messages: final(self).store.messages, ..old(self).store }, ..*old(self) })
            }),
    {
        let index = match self.message_with_id(chat as u8, id) {
            Some(index) => index,
            None => return,
        };
        self.store.messages[index].starred = starred;
        proof {
            assert forall|i: int| 0 <= i < self.store.messages@.len() implies message_wf(#[trigger] self.store.messages@[i]) by {
                assert(message_wf(old(self).store.messages@[i]));
            }
        }
        self.recompute_height(index);
    }

    /// Marks (or unmarks) message `index` and tells the core (`STAR chat id 1|0`); a message without
    /// an id, or deleted, cannot be marked.
    pub fn toggle_star(&mut self, index: usize)
        requires
            old(self).wf(),
            index < old(self).store.messages@.len(),
        ensures
            final(self).wf(),
            star_toggled(*old(self), *final(self), index),
    {
        let message = &self.store.messages[index];
        if message.id.unicode_len() == 0 || message.deleted {
            return;
        }
        assert(message_wf(self.store.messages@[index as int]));
        let starred = !message.starred;
        let mut line = chars_of("STAR\t");
        line.push(digit_char((message.chat / 10) as u64));
        line.push(digit_char((message.chat % 10) as u64));
        line.push('\t');
        let mut id = chars_of(message.id.as_str());
        line.append(&mut id);
        line.push('\t');
        line.push(if starred { '1' } else { '0' });
        proof { reveal_strlit("STAR\t"); }
        assert(line@ =~= about("STAR\t"@, message.chat, message.id@) + seq!['\t', if message.starred { '0' } else { '1' }]);
        self.tell_core(string_of(line.as_slice()));
        self.store.messages[index].starred = starred;
        proof {
            assert forall|i: int| 0 <= i < self.store.messages@.len() implies message_wf(#[trigger] self.store.messages@[i]) by {
                assert(message_wf(old(self).store.messages@[i]));
            }
        }
        self.recompute_height(index);
    }

    /// The core gave the connection id to what we sent last in `chat` (the oldest message still without one).
    pub fn set_sent_id(&mut self, chat: usize, id: &str)
        requires
            old(self).wf(),
        ensures
            final(self).wf(),
            match unnamed_sent(old(self).store.messages@, chat as int) {
                None => *final(self) == *old(self),
                Some(i) => final(self).store.messages@.len() == old(self).store.messages@.len()
                    && final(self).store.messages@[i].id@ == fit(id@, ID_CAPACITY as nat)
                    && final(self).store.messages@[i] == Message { id: final(self).store.messages@[i].id, ..old(self).store.messages@[i] }
                    && (forall|j: int| 0 <= j < old(self).store.messages@.len() && j != i ==> final(self).store.messages@[j] == old(self).store.messages@[j])
                    && *final(self) == (Chat { store: Store { messages: final(self).store.messages, ..old(self).store }, ..*old(self) }),
            },
    {
        let mut i: usize = 0;
        while i < self.store.messages.len()
            invariant
                0 <= i <= self.store.messages@.len(),
                self.store.messages@ == old(self).store.messages@,
                *self == *old(self),
                old(self).wf(),
                unnamed_from(old(self).store.messages@, chat as int, 0) == unnamed_from(old(self).store.messages@, chat as int, i as int),
            decreases self.store.messages@.len() - i,
        {
            let message = &self.store.messages[i];
            if message.chat as usize == chat && message.outgoing && message.id.unicode_len() == 0 {
                proof { lemma_fit_room(id@, ID_CAPACITY as nat); }
                self.store.messages[i].id = store(id, ID_CAPACITY);
                proof {
                    assert forall|j: int| 0 <= j < self.store.messages@.len() implies message_wf(#[trigger] self.store.messages@[j]) by {
                        assert(message_wf(old(self).store.messages@[j]));
                    }
                }
                return;
            }
            i = i + 1;
        }
    }

    /// The core says message `id` of `chat` now reads `text` (the other side edited it); a deleted
    /// message stays as it is.
    pub fn set_text(&mut self, chat: usize, id: &str, text: &str)
        requires
            old(self).wf(),
        ensures
            final(self).wf(),
            match id_position(old(self).store.messages@, chat as u8, id@) {
                None => *final(self) == *old(self),
                Some(i) => {
                    let before = old(self).store.messages@[i];
                    &&& before.deleted ==> *final(self) == *old(self)
                    &&& !before.deleted ==> final(self).store.messages@[i].text@ == fit(text@, MESSAGE_CAPACITY as nat)
                        && final(self).store.messages@[i] == Message { text: final(self).store.messages@[i].text,
                            height: final(self).store.messages@[i].height, ..before }
                        && final(self).store.messages@.len() == old(self).store.messages@.len()
                        && (forall|j: int| 0 <= j < old(self).store.messages@.len() && j != i ==> final(self).store.messages@[j] == old(self).store.messages@[j])
                        && *final(self) == (Chat { store: Store { messages: final(self).store.messages, ..old(self).store }, ..*old(self) })
                },
            },
    {
        let index = match self.message_with_id(chat as u8, id) {
            Some(index) => index,
            None => return,
        };
        if self.store.messages[index].deleted {
            return;
        }
        proof { lemma_fit_room(text@, MESSAGE_CAPACITY as nat); }
        self.store.messages[index].text = store(text, MESSAGE_CAPACITY);
        proof {
            assert forall|i: int| 0 <= i < self.store.messages@.len() implies message_wf(#[trigger] self.store.messages@[i]) by {
                assert(message_wf(old(self).store.messages@[i]));
            }
        }
        self.recompute_height(index);
    }

    /// Message `id` of `chat` was deleted for everyone (by us, or by the other side): its text says
    /// so, and its reactions, favourite mark and quote go.
    pub fn mark_deleted(&mut self, chat: usize, id: &str, by_me: bool)
        requires
            old(self).wf(),
        ensures
            final(self).wf(),
            match id_position(old(self).store.messages@, chat as u8, id@) {
                None => *final(self) == *old(self),
                Some(i) => {
                    let before = old(self).store.messages@[i];
                    let after = final(self).store.messages@[i];
                    &&& after.text@ == (if by_me { "Você apagou esta mensagem"@ } else { "Esta mensagem foi apagada"@ })
                    &&& after.deleted && !after.starred && after.mine == 0 && after.reply@.len() == 0
                    &&& after.tally@ == seq![0u32, 0u32, 0u32] && after.counts@ == seq![0u8, 0u8, 0u8]
                    &&& after == Message { text: after.text, deleted: true, starred: false, mine: 0, reply: after.reply,
                        tally: after.tally, counts: after.counts, height: after.height, ..before }
                    &&& final(self).store.messages@.len() == old(self).store.messages@.len()
                    &&& forall|j: int| 0 <= j < old(self).store.messages@.len() && j != i ==> final(self).store.messages@[j] == old(self).store.messages@[j]
                    &&& *final(self) == (Chat { store: Store { messages: final(self).store.messages, ..old(self).store }, ..*old(self) })
                },
            },
    {
        let index = match self.message_with_id(chat as u8, id) {
            Some(index) => index,
            None => return,
        };
        let text = if by_me { "Você apagou esta mensagem" } else { "Esta mensagem foi apagada" };
        proof {
            reveal_strlit("Você apagou esta mensagem");
            reveal_strlit("Esta mensagem foi apagada");
            crate::text::lemma_byte_len_bound(text@);
        }
        self.store.messages[index].text = text.to_owned();
        self.store.messages[index].deleted = true;
        self.store.messages[index].tally = [0; TALLY];
        self.store.messages[index].counts = [0; TALLY];
        self.store.messages[index].mine = 0;
        self.store.messages[index].starred = false;
        self.store.messages[index].reply = String::new();
        assert(self.store.messages@[index as int].tally@ =~= seq![0u32, 0u32, 0u32]);
        assert(self.store.messages@[index as int].counts@ =~= seq![0u8, 0u8, 0u8]);
        proof {
            assert forall|i: int| 0 <= i < self.store.messages@.len() implies message_wf(#[trigger] self.store.messages@[i]) by {
                assert(message_wf(old(self).store.messages@[i]));
            }
        }
        self.recompute_height(index);
    }

    /// Deletes our message `index` for everyone: the core is told (`DELETE chat id`) and the screen
    /// shows it as deleted. Only a message we sent, with an id and not deleted yet, can go.
    pub fn delete_for_everyone(&mut self, index: usize)
        requires
            old(self).wf(),
            index < old(self).store.messages@.len(),
        ensures
            final(self).wf(),
            ({
                let before = old(self).store.messages@[index as int];
                &&& (!before.outgoing || before.deleted || before.id@.len() == 0) ==> *final(self) == *old(self)
                &&& !(!before.outgoing || before.deleted || before.id@.len() == 0) ==> ({
                    &&& sent(old(self).outbox@, final(self).outbox@, about("DELETE\t"@, before.chat, before.id@))
                    &&& final(self).store.messages@.len() == old(self).store.messages@.len()
                    &&& exists|i: int| 0 <= i < final(self).store.messages@.len() && #[trigger] final(self).store.messages@[i].deleted
                        && final(self).store.messages@[i].chat == before.chat && final(self).store.messages@[i].id@ == before.id@
                    &&& *final(self) == (Chat { store: Store { messages: final(self).store.messages, ..old(self).store },
                        outbox: final(self).outbox, ..*old(self) })
                })
            }),
    {
        let message = &self.store.messages[index];
        if !message.outgoing || message.deleted || message.id.unicode_len() == 0 {
            return;
        }
        assert(message_wf(self.store.messages@[index as int]));
        let chat = message.chat;
        let id = message.id.as_str().to_owned();
        let mut line = chars_of("DELETE\t");
        line.push(digit_char((chat / 10) as u64));
        line.push(digit_char((chat % 10) as u64));
        line.push('\t');
        let mut rest = chars_of(id.as_str());
        line.append(&mut rest);
        proof { reveal_strlit("DELETE\t"); }
        assert(line@ =~= about("DELETE\t"@, chat, id@));
        self.tell_core(string_of(line.as_slice()));
        let ghost told = self.outbox@;
        proof { lemma_id_found(self.store.messages@, chat, id@, index as int); }
        self.mark_deleted(chat as usize, id.as_str(), true);
    }

    /// Copies message `index`'s text to the clipboard.
    pub fn copy_message(&mut self, index: usize)
        requires
            old(self).wf(),
            index < old(self).store.messages@.len(),
        ensures
            final(self).wf(),
            message_copied(*old(self), *final(self), index),
    {
        self.clipboard.text = self.store.messages[index].text.as_str().to_owned();
        self.clipboard.pending = true;
    }
}

/// The oldest message of `chat` we sent that has no id yet, from message `k` on.
pub open spec fn unnamed_from(messages: Seq<Message>, chat: int, k: int) -> Option<int>
    decreases messages.len() - k,
{
    if k < 0 || k >= messages.len() {
        None
    } else if messages[k].chat as int == chat && messages[k].outgoing && messages[k].id@.len() == 0 {
        Some(k)
    } else {
        unnamed_from(messages, chat, k + 1)
    }
}

pub open spec fn unnamed_sent(messages: Seq<Message>, chat: int) -> Option<int> {
    unnamed_from(messages, chat, 0)
}

/// A message with an id is found by it: the search names one with the same chat and id.
proof fn lemma_id_found(messages: Seq<Message>, chat: u8, id: Seq<char>, index: int)
    requires
        0 <= index < messages.len(),
        messages[index].chat == chat && messages[index].id@ == id,
        id.len() > 0,
    ensures
        id_position(messages, chat, id) matches Some(i) && 0 <= i < messages.len() && messages[i].chat == chat && messages[i].id@ == id,
{
    lemma_id_from_finds(messages, chat, id, 0, index);
}

proof fn lemma_id_from_finds(messages: Seq<Message>, chat: u8, id: Seq<char>, k: int, index: int)
    requires
        0 <= k <= index < messages.len(),
        messages[index].chat == chat && messages[index].id@ == id,
    ensures
        id_from(messages, chat, id, k) matches Some(i) && k <= i <= index && messages[i].chat == chat && messages[i].id@ == id,
    decreases index - k,
{
    if !(messages[k].chat == chat && messages[k].id@ == id) {
        lemma_id_from_finds(messages, chat, id, k + 1, index);
    }
}

} // verus!

verus! {

/// The parts of `s` between spaces, the empty ones left out.
pub open spec fn space_words(s: Seq<char>) -> Seq<Seq<char>>
    decreases s.len(),
{
    if s.len() == 0 {
        Seq::empty()
    } else {
        let i = space_at(s, 0);
        let head = s.take(i);
        proof { lemma_space_at(s, 0); }
        let rest = if 0 <= i < s.len() { space_words(s.skip(i + 1)) } else { Seq::empty() };
        if head.len() > 0 { seq![head] + rest } else { rest }
    }
}

/// Where the first space of `s` at or after `k` is, or the end.
pub open spec fn space_at(s: Seq<char>, k: int) -> int
    decreases s.len() - k,
{
    if k < 0 || k >= s.len() { s.len() as int } else if s[k] == ' ' { k } else { space_at(s, k + 1) }
}

pub proof fn lemma_space_at(s: Seq<char>, k: int)
    requires
        0 <= k <= s.len(),
    ensures
        k <= space_at(s, k) <= s.len(),
        space_at(s, k) < s.len() ==> s[space_at(s, k)] == ' ',
        forall|j: int| k <= j < space_at(s, k) ==> s[j] != ' ',
    decreases s.len() - k,
{
    if k < s.len() && s[k] != ' ' {
        lemma_space_at(s, k + 1);
    }
}

/// Where the last colon of `s` is, if it has one.
pub open spec fn last_colon(s: Seq<char>) -> Option<int>
    decreases s.len(),
{
    if s.len() == 0 {
        None
    } else if s.last() == ':' {
        Some(s.len() - 1)
    } else {
        last_colon(s.drop_last())
    }
}

/// What one `emoji:count` pair puts in the pill: the emoji's first character (0 for none) and the
/// count (1 when it does not read as one); nothing for a pair without a colon.
pub open spec fn pair_value(pair: Seq<char>) -> (u32, u8) {
    match last_colon(pair) {
        None => (0, 0),
        Some(j) => {
            let emoji = pair.take(j);
            let count = pair.skip(j + 1);
            (if emoji.len() > 0 { emoji[0] as u32 } else { 0 },
             match crate::link::number(count) { Some(n) => if n <= 255 { n as u8 } else { 1 }, None => 1 })
        },
    }
}

/// The pill the `REACTIONS` counts make: the first three pairs, each in its slot.
pub open spec fn pill_of(counts: Seq<char>) -> (Seq<u32>, Seq<u8>) {
    let words = space_words(counts);
    (Seq::new(TALLY as nat, |slot: int| if slot < words.len() { pair_value(words[slot]).0 } else { 0u32 }),
     Seq::new(TALLY as nat, |slot: int| if slot < words.len() { pair_value(words[slot]).1 } else { 0u8 }))
}

/// The words of `s` between spaces.
fn split_spaces(s: &[char]) -> (words: Vec<Vec<char>>)
    ensures
        words@.map_values(|w: Vec<char>| w@) == space_words(s@),
    decreases s@.len(),
{
    if s.len() == 0 {
        return Vec::new();
    }
    let mut i: usize = 0;
    while i < s.len() && s[i] != ' '
        invariant
            0 <= i <= s@.len(),
            forall|j: int| 0 <= j < i ==> s@[j] != ' ',
            space_at(s@, 0) == space_at(s@, i as int),
        decreases s@.len() - i,
    {
        i = i + 1;
    }
    let head = crate::text::slice_chars(s, 0, i);
    let mut words: Vec<Vec<char>> = Vec::new();
    if i > 0 {
        words.push(head);
    }
    if i < s.len() {
        let tail = crate::text::slice_chars(s, i + 1, s.len());
        let mut rest = split_spaces(tail.as_slice());
        assert(tail@ =~= s@.skip(i + 1));
        words.append(&mut rest);
    }
    assert(head@ =~= s@.take(i as int));
    assert(words@.map_values(|w: Vec<char>| w@) =~= space_words(s@));
    words
}

fn pair_of(pair: &[char]) -> (value: (u32, u8))
    ensures
        value == pair_value(pair@),
{
    let mut j: usize = pair.len();
    assert(pair@.take(j as int) =~= pair@);
    while j > 0 && pair[j - 1] != ':'
        invariant
            0 <= j <= pair@.len(),
            last_colon(pair@) == last_colon(pair@.take(j as int)),
        decreases j,
    {
        assert(pair@.take(j as int).drop_last() =~= pair@.take(j - 1));
        j = j - 1;
    }
    if j == 0 {
        assert(pair@.take(0) =~= Seq::<char>::empty());
        return (0, 0);
    }
    assert(pair@.take(j as int).last() == ':');
    let colon = j - 1;
    let emoji: u32 = if colon > 0 { pair[0] as u32 } else { 0 };
    let count_chars = crate::text::slice_chars(pair, colon + 1, pair.len());
    assert(count_chars@ =~= pair@.skip(colon + 1));
    let count: u8 = match crate::link::parse_number(count_chars.as_slice()) {
        Some(n) => if n <= 255 { n as u8 } else { 1 },
        None => 1,
    };
    assert(pair@.take(colon as int).len() == colon);
    (emoji, count)
}

impl Chat {
    /// The reactions of message `id` of `chat` as the core counts them: the emoji we put (empty: none) and
    /// `emoji:count` pairs separated by spaces, most used first; the pill shows the first three.
    pub fn set_reactions(&mut self, chat: usize, id: &str, mine: &str, counts: &str)
        requires
            old(self).wf(),
        ensures
            final(self).wf(),
            match id_position(old(self).store.messages@, chat as u8, id@) {
                None => *final(self) == *old(self),
                Some(i) => {
                    let after = final(self).store.messages@[i];
                    &&& after.mine == (if mine@.len() > 0 { mine@[0] as u32 } else { 0 })
                    &&& (after.tally@, after.counts@) == pill_of(counts@)
                    &&& after == Message { mine: after.mine, tally: after.tally, counts: after.counts, height: after.height,
                        ..old(self).store.messages@[i] }
                    &&& final(self).store.messages@.len() == old(self).store.messages@.len()
                    &&& forall|j: int| 0 <= j < old(self).store.messages@.len() && j != i ==> final(self).store.messages@[j] == old(self).store.messages@[j]
                    &&& *final(self) == (Chat { store: Store { messages: final(self).store.messages, ..old(self).store }, ..*old(self) })
                },
            },
    {
        let index = match self.message_with_id(chat as u8, id) {
            Some(index) => index,
            None => return,
        };
        let code: u32 = if mine.unicode_len() > 0 { mine.get_char(0) as u32 } else { 0 };
        let words = split_spaces(chars_of(counts).as_slice());
        let ghost all = space_words(counts@);
        let mut tally: [u32; TALLY] = [0; TALLY];
        let mut numbers: [u8; TALLY] = [0; TALLY];
        let mut slot: usize = 0;
        while slot < TALLY
            invariant
                0 <= slot <= TALLY,
                all == space_words(counts@),
                words@.map_values(|w: Vec<char>| w@) == all,
                forall|k: int| 0 <= k < slot ==> tally@[k] == pill_of(counts@).0[k] && numbers@[k] == pill_of(counts@).1[k],
                forall|k: int| slot <= k < TALLY ==> tally@[k] == 0 && numbers@[k] == 0,
            decreases TALLY - slot,
        {
            assert(all.len() == words@.len());
            if slot < words.len() {
                assert(all[slot as int] == words@[slot as int]@);
                let (emoji, count) = pair_of(words[slot].as_slice());
                tally[slot] = emoji;
                numbers[slot] = count;
            }
            slot = slot + 1;
        }
        assert(tally@ =~= pill_of(counts@).0);
        assert(numbers@ =~= pill_of(counts@).1);
        self.store.messages[index].mine = code;
        self.store.messages[index].tally = tally;
        self.store.messages[index].counts = numbers;
        proof {
            assert forall|i: int| 0 <= i < self.store.messages@.len() implies message_wf(#[trigger] self.store.messages@[i]) by {
                assert(message_wf(old(self).store.messages@[i]));
            }
        }
        self.recompute_height(index);
    }

    /// We react to message `index` with `emoji` (the same one again takes it back): the core is told
    /// (`REACT chat id emoji`, the emoji empty when taken back) and the pill shows it.
    #[verifier::spinoff_prover]
    #[verifier::rlimit(80)]
    pub fn react(&mut self, index: usize, emoji: char)
        requires
            old(self).wf(),
            index < old(self).store.messages@.len(),
        ensures
            final(self).wf(),
            reacted(*old(self), *final(self), index as int, emoji),
    {
        let message = &self.store.messages[index];
        if message.id.unicode_len() == 0 || message.deleted {
            return;
        }
        assert(message_wf(self.store.messages@[index as int]));
        let code: u32 = if message.mine == emoji as u32 { 0 } else { emoji as u32 };
        let mut line = chars_of("REACT\t");
        line.push(digit_char((message.chat / 10) as u64));
        line.push(digit_char((message.chat % 10) as u64));
        line.push('\t');
        let mut id = chars_of(message.id.as_str());
        line.append(&mut id);
        line.push('\t');
        if code != 0 {
            line.push(emoji);
        }
        proof { reveal_strlit("REACT\t"); }
        assert(line@ =~= about("REACT\t"@, message.chat, message.id@) + seq!['\t'] + (if code == 0 { Seq::empty() } else { seq![emoji] }));
        self.tell_core(string_of(line.as_slice()));
        self.store.messages[index].take_back_mine();
        if code != 0 {
            self.store.messages[index].add_mine(code);
        }
        proof {
            assert forall|i: int| 0 <= i < self.store.messages@.len() implies message_wf(#[trigger] self.store.messages@[i]) by {
                assert(message_wf(old(self).store.messages@[i]));
            }
        }
        self.recompute_height(index);
    }
}

} // verus!
