//! Opening and leaving conversations: the draft each one keeps, the reply being written, the window
//! size, and starting over.

use vstd::prelude::*;
use crate::chat::{Chat, sent};
use crate::chat_flow::{kept_messages};
use crate::chat_lists::{list_order, overflow};
use crate::chat_messages::{layout_of, viewport_of, height_of};
use crate::field::{Field, FieldView};
use crate::font::emoji_count;
use crate::items::{Conversation, Focus, MAX_CHATS, MESSAGE_CAPACITY, NAME_CAPACITY, SELF_CHAT, PHONE_DIGITS, phone_scan, phone_digits};
use crate::layout::{BUBBLE_PAD_X, panel_width, sidebar_width};
use crate::screen::{Store, Scroll, Screen, Marks, Boxes, Finder, History, Change, empty_field, filled_field, BANNER_CAPACITY,
    HISTORY_RANK, LIVE_RANK, message_wf};
use crate::text::{fit, byte_len, string_of, chars_of, lemma_fit};
use crate::field::lemma_bytes_bound_len;

verus! {

/// A draft kept with its conversation has room for one byte less than the box.
pub const DRAFT_KEPT: usize = 239;

/// The emoji picker opened or closed, choosing no reaction.
pub open spec fn picker_toggled(prior: Chat, next: Chat) -> bool {
    &&& next == (Chat { marks: Marks { picker_open: !prior.marks.picker_open, picker_reaction: None, ..prior.marks },
        ..prior })
}

/// The emoji picker closed.
pub open spec fn picker_closed(prior: Chat, next: Chat) -> bool {
    &&& next == (Chat { marks: Marks { picker_open: false, picker_reaction: None, ..prior.marks }, ..prior })
}

/// The emoji picker opened to react to message `index`.
pub open spec fn reaction_picker_opened(prior: Chat, next: Chat, index: usize) -> bool {
    &&& next == (Chat { marks: Marks { picker_open: true, picker_reaction: Some(index), ..prior.marks }, ..prior })
}

/// Contact `index` of the new-conversation panel chosen.
pub open spec fn contact_picked(prior: Chat, next: Chat, index: usize) -> bool {
    &&& match first_named(prior.store.conversations@, prior.lists.contacts@[index as int].name@) {
        Some(c) => next.screen.selected == c && next.screen.open && !next.screen.new_chat,
        None => sent(prior.outbox@, next.outbox@, "OPENCHAT\t"@ + prior.lists.contacts@[index as int].name@)
            && next == (Chat { outbox: next.outbox, ..prior }),
    }
}

/// The conversation with ourselves chosen.
pub open spec fn self_picked(prior: Chat, next: Chat) -> bool {
    &&& match first_named(prior.store.conversations@, SELF_CHAT@) {
        Some(c) => next.screen.selected == c && next.screen.open && !next.screen.new_chat,
        None => sent(prior.outbox@, next.outbox@, "OPENCHAT\t"@)
            && next == (Chat { outbox: next.outbox, ..prior }),
    }
}

/// The number typed in the search box chosen.
pub open spec fn number_picked(prior: Chat, next: Chat) -> bool {
    &&& ({
        let (digits, ok) = phone_scan(prior.boxes.search@.text, prior.boxes.search@.text.len());
        &&& (ok && digits.len() >= 8) ==> sent(prior.outbox@, next.outbox@,
            "OPENCHAT\t"@ + digits.map_values(|d: u8| d as char))
            && next == (Chat { outbox: next.outbox, ..prior })
        &&& !(ok && digits.len() >= 8) ==> next == prior
    })
}

/// Conversation `chat` opened.
pub open spec fn selected(prior: Chat, next: Chat, chat: usize) -> bool {
    &&& next.screen == (Screen { selected: chat, open: true, focus: Focus::Message, ..prior.screen })
    &&& next.boxes.reply_to@.len() == 0 && !next.boxes.editing
    &&& next.boxes.banner@ == empty_field()
    &&& next.store.conversations@[chat as int].unread == 0
    &&& (chat != prior.screen.selected || !prior.screen.open) ==> next.store.conversations@[chat as int].draft@.len() == 0
    &&& (chat != prior.screen.selected || !prior.screen.open) ==> ({
        let left = if prior.screen.open && chat == prior.screen.selected {
            fit(prior.boxes.draft@.text, DRAFT_KEPT as nat)
        } else {
            prior.store.conversations@[chat as int].draft@
        };
        &&& !prior.boxes.editing ==> next.boxes.draft@.text == fit(left, MESSAGE_CAPACITY as nat)
        &&& (prior.screen.open && !prior.boxes.editing) ==> next.store.conversations@[prior.screen.selected as int].draft@
            == fit(prior.boxes.draft@.text, DRAFT_KEPT as nat)
    })
    &&& !prior.finder.open ==> next.finder == prior.finder
    &&& prior.finder.open ==> !next.finder.open
    &&& next.marks == (Marks { message_menu: None, picker_open: false, ..prior.marks })
    &&& next.scroll.below_count == 0
    &&& next.scroll.conversation == overflow(layout_of(&next).1, viewport_of(&next))
    &&& next.store.messages == prior.store.messages
    &&& next.lists == prior.lists && next.call == prior.call && next.dialog == prior.dialog
}

/// The answer or the edit being written given up.
pub open spec fn reply_cancelled(prior: Chat, next: Chat) -> bool {
    &&& next.boxes.reply_to@.len() == 0
    &&& !next.boxes.editing
    &&& prior.boxes.editing ==> next.boxes.draft@ == empty_field()
    &&& !prior.boxes.editing ==> next.boxes.draft == prior.boxes.draft
    &&& next == (Chat { boxes: Boxes { reply_to: next.boxes.reply_to, editing: false, draft: next.boxes.draft,
        ..prior.boxes }, ..prior })
}

/// An answer to message `index` started.
pub open spec fn reply_started(prior: Chat, next: Chat, index: usize) -> bool {
    &&& ({
        let m = prior.store.messages@[index as int];
        &&& (m.id@.len() == 0 || m.deleted) ==> next == prior
        &&& !(m.id@.len() == 0 || m.deleted) ==> next.boxes.reply_to@ == m.id@
            && next == (Chat { boxes: Boxes { reply_to: next.boxes.reply_to, ..prior.boxes },
                screen: Screen { focus: Focus::Message, ..prior.screen }, ..prior })
    })
}

/// The emoji picker scrolled by `notches` rows, within its rows.
pub open spec fn picker_scrolled(prior: Chat, next: Chat, notches: i32) -> bool {
    &&& ({
        let rows = (emoji_count(prior.font.emoji@) + crate::chat_open::PICKER_COLS - 1) / (PICKER_COLS as int);
        let last = if rows > PICKER_ROWS { rows - PICKER_ROWS } else { 0 };
        let wanted = prior.scroll.picker_row + notches;
        next.scroll.picker_row == (if wanted < 0 { 0 } else if wanted > last { last } else { wanted })
    })
    &&& next == (Chat { scroll: Scroll { picker_row: next.scroll.picker_row, ..prior.scroll }, ..prior })
}

/// The open conversation closed, its draft kept.
pub open spec fn conversation_closed(prior: Chat, next: Chat) -> bool {
    &&& next.screen == (Screen { info_open: false, open: false, ..prior.screen })
    &&& next.boxes.draft@ == empty_field()
    &&& prior.screen.open ==> next.store.conversations@[prior.screen.selected as int].draft@
        == fit(prior.boxes.draft@.text, DRAFT_KEPT as nat)
    &&& next.history.undo@.len() == 0 && next.history.redo@.len() == 0
    &&& next.marks == (Marks { picker_open: false, ..prior.marks })
    &&& next.finder == (Finder { open: false, ..prior.finder })
    &&& next.store.messages == prior.store.messages
}

impl Chat {
    /// Forgets what Ctrl+Z could go back to.
    pub fn forget_history(&mut self)
        ensures
            final(self).history.undo@.len() == 0 && final(self).history.redo@.len() == 0,
            final(self).history.last_change == Change::Other,
            *final(self) == (Chat { history: final(self).history, ..*old(self) }),
    {
        self.history.undo = Vec::new();
        self.history.redo = Vec::new();
        self.history.last_change = Change::Other;
    }

    /// Stops answering (or editing) a message; an edit leaves the box empty.
    pub fn cancel_reply(&mut self)
        requires
            old(self).wf(),
        ensures
            final(self).wf(),
            reply_cancelled(*old(self), *final(self)),
    {
        self.boxes.reply_to = String::new();
        if self.boxes.editing {
            self.boxes.editing = false;
            self.boxes.draft.clear();
        }
    }

    /// Starts answering message `index`, which must have an id and not be deleted.
    pub fn start_reply(&mut self, index: usize)
        requires
            old(self).wf(),
            index < old(self).store.messages@.len(),
        ensures
            final(self).wf(),
            reply_started(*old(self), *final(self), index),
    {
        let message = &self.store.messages[index];
        assert(message_wf(self.store.messages@[index as int]));
        if message.id.unicode_len() == 0 || message.deleted {
            return;
        }
        self.boxes.reply_to = message.id.as_str().to_owned();
        self.screen.focus = Focus::Message;
    }

    /// Puts what is typed away with the open conversation (cut to the room it keeps).
    pub fn stash_draft(&mut self)
        requires
            old(self).wf(),
        ensures
            final(self).wf(),
            !old(self).screen.open ==> *final(self) == *old(self),
            old(self).screen.open ==> ({
                let kept = old(self).store.conversations@[old(self).screen.selected as int];
                &&& final(self).store.conversations@ == old(self).store.conversations@.update(old(self).screen.selected as int,
                    Conversation { draft: final(self).store.conversations@[old(self).screen.selected as int].draft, ..kept })
                &&& final(self).store.conversations@[old(self).screen.selected as int].draft@
                    == fit(old(self).boxes.draft@.text, DRAFT_KEPT as nat)
                &&& *final(self) == (Chat { store: Store { conversations: final(self).store.conversations, ..old(self).store }, ..*old(self) })
            }),
    {
        if self.screen.open {
            let kept = crate::text::fit_chars(self.boxes.draft.chars(), DRAFT_KEPT);
            proof { lemma_fit(self.boxes.draft@.text, DRAFT_KEPT as nat); lemma_bytes_bound_len(fit(self.boxes.draft@.text, DRAFT_KEPT as nat)); }
            let selected = self.screen.selected;
            self.store.conversations[selected].draft = kept;
            proof {
                assert forall|i: int| 0 <= i < MAX_CHATS implies (#[trigger] self.store.conversations@[i]).draft@.len() <= MESSAGE_CAPACITY
                    && self.store.conversations@[i].name@.len() <= NAME_CAPACITY by {
                    assert(old(self).store.conversations@[i].draft@.len() <= MESSAGE_CAPACITY);
                }
            }
        }
    }

    /// The unsent text of conversation `index`: what is typed if it is the open one, else what was left.
    pub fn draft_of(&self, index: usize) -> (draft: String)
        requires
            self.wf(),
            index < MAX_CHATS,
        ensures
            draft@ == (if self.screen.open && index == self.screen.selected { self.boxes.draft@.text }
                else { self.store.conversations@[index as int].draft@ }),
    {
        if self.screen.open && index == self.screen.selected {
            return self.boxes.draft.text();
        }
        string_of(self.store.conversations[index].draft.as_slice())
    }

    /// Puts the open conversation's draft away and takes out the one of `next`.
    pub fn swap_draft(&mut self, next: usize)
        requires
            old(self).wf(),
            next < MAX_CHATS,
        ensures
            final(self).wf(),
            ({
                let stashed = if old(self).screen.open {
                    old(self).store.conversations@.update(old(self).screen.selected as int,
                        Conversation { draft: final(self).store.conversations@[old(self).screen.selected as int].draft,
                            ..old(self).store.conversations@[old(self).screen.selected as int] })
                } else {
                    old(self).store.conversations@
                };
                let left = if old(self).screen.open && next == old(self).screen.selected {
                    fit(old(self).boxes.draft@.text, DRAFT_KEPT as nat)
                } else {
                    old(self).store.conversations@[next as int].draft@
                };
                &&& final(self).boxes.draft@ == (FieldView { text: fit(left, MESSAGE_CAPACITY as nat),
                    cursor: fit(left, MESSAGE_CAPACITY as nat).len() as int, anchor: fit(left, MESSAGE_CAPACITY as nat).len() as int })
                &&& final(self).store.conversations@[next as int].draft@.len() == 0
                &&& forall|i: int| 0 <= i < MAX_CHATS && i != next && !(old(self).screen.open && i == old(self).screen.selected)
                    ==> final(self).store.conversations@[i] == old(self).store.conversations@[i]
                &&& old(self).screen.open && next != old(self).screen.selected ==>
                    final(self).store.conversations@[old(self).screen.selected as int].draft@ == fit(old(self).boxes.draft@.text, DRAFT_KEPT as nat)
                &&& final(self).history.undo@.len() == 0 && final(self).history.redo@.len() == 0
                &&& final(self).store.conversations@.len() == MAX_CHATS
                &&& forall|i: int| 0 <= i < MAX_CHATS ==> (#[trigger] final(self).store.conversations@[i]) ==
                    Conversation { draft: final(self).store.conversations@[i].draft, ..old(self).store.conversations@[i] }
                &&& *final(self) == (Chat { store: Store { conversations: final(self).store.conversations, ..old(self).store },
                    boxes: Boxes { draft: final(self).boxes.draft, ..old(self).boxes }, history: final(self).history, ..*old(self) })
            }),
    {
        self.forget_history();
        self.stash_draft();
        let stored = self.store.conversations[next].draft.clone();
        self.boxes.draft.clear();
        self.boxes.draft.set(stored.as_slice());
        self.store.conversations[next].draft = Vec::new();
        proof {
            assert forall|i: int| 0 <= i < MAX_CHATS implies (#[trigger] self.store.conversations@[i]).draft@.len() <= MESSAGE_CAPACITY
                && self.store.conversations@[i].name@.len() <= NAME_CAPACITY by {
                assert(old(self).store.conversations@[i].draft@.len() <= MESSAGE_CAPACITY);
            }
        }
    }

    pub fn set_banner(&mut self, text: &str)
        requires
            old(self).wf(),
        ensures
            final(self).wf(),
            final(self).boxes.banner@ == filled_field(text@, BANNER_CAPACITY as nat),
            *final(self) == (Chat { boxes: Boxes { banner: final(self).boxes.banner, ..old(self).boxes }, ..*old(self) }),
    {
        self.boxes.banner.clear();
        self.boxes.banner.push_str(text);
    }

    pub fn text_limit(&self) -> (limit: i32)
        ensures
            limit == self.scroll.text_limit,
    {
        self.scroll.text_limit
    }

    pub fn toggle_picker(&mut self)
        ensures
            picker_toggled(*old(self), *final(self)),
    {
        self.marks.picker_open = !self.marks.picker_open;
        self.marks.picker_reaction = None;
    }

    pub fn close_picker(&mut self)
        ensures
            picker_closed(*old(self), *final(self)),
    {
        self.marks.picker_open = false;
        self.marks.picker_reaction = None;
    }

    /// Opens the emoji picker to choose a reaction to message `index` (the "+" of the reaction row).
    pub fn open_reaction_picker(&mut self, index: usize)
        ensures
            reaction_picker_opened(*old(self), *final(self), index),
    {
        self.marks.picker_open = true;
        self.marks.picker_reaction = Some(index);
    }

    /// Scrolls the emoji picker by `notches` rows, within its rows.
    pub fn scroll_picker(&mut self, notches: i32)
        requires
            old(self).wf(),
        ensures
            final(self).wf(),
            picker_scrolled(*old(self), *final(self), notches),
    {
        let total = crate::font::emoji_total(&self.font);
        let rows: usize = (total + PICKER_COLS - 1) / PICKER_COLS;
        let last: i64 = if rows > PICKER_ROWS { (rows - PICKER_ROWS) as i64 } else { 0 };
        let wanted: i64 = self.scroll.picker_row as i64 + notches as i64;
        self.scroll.picker_row = (if wanted < 0 { 0 } else if wanted > last { last } else { wanted }) as usize;
    }

    /// Opens conversation `chat`: what was typed goes with the one that was open and the new one's
    /// draft comes back; its unread messages are read; the view goes to its newest message.
    #[verifier::spinoff_prover]
    #[verifier::rlimit(60)]
    pub fn select(&mut self, chat: usize)
        requires
            old(self).wf(),
            chat < MAX_CHATS,
        ensures
            final(self).wf(),
            selected(*old(self), *final(self), chat),
    {
        self.leave_for(chat);
        self.screen.selected = chat;
        self.screen.open = true;
        self.read_chat(chat);
        self.boxes.banner.clear();
        self.marks.picker_open = false;
        self.screen.focus = Focus::Message;
        self.scroll.conversation = self.max_conversation_scroll();
    }

    /// The first half of opening `chat`: the reply and the menus go, the find bar closes, and the
    /// drafts change places when another conversation opens.
    #[verifier::spinoff_prover]
    #[verifier::rlimit(60)]
    fn leave_for(&mut self, chat: usize)
        requires
            old(self).wf(),
            chat < MAX_CHATS,
        ensures
            final(self).wf(),
            final(self).screen == (Screen { focus: if old(self).finder.open { Focus::Message } else { old(self).screen.focus }, ..old(self).screen }),
            final(self).boxes.reply_to@.len() == 0 && !final(self).boxes.editing,
            final(self).boxes.banner == old(self).boxes.banner,
            (chat != old(self).screen.selected || !old(self).screen.open) ==> final(self).store.conversations@[chat as int].draft@.len() == 0,
            (chat != old(self).screen.selected || !old(self).screen.open) ==> ({
                let left = if old(self).screen.open && chat == old(self).screen.selected {
                    fit(old(self).boxes.draft@.text, DRAFT_KEPT as nat)
                } else {
                    old(self).store.conversations@[chat as int].draft@
                };
                &&& !old(self).boxes.editing ==> final(self).boxes.draft@.text == fit(left, MESSAGE_CAPACITY as nat)
                &&& (old(self).screen.open && !old(self).boxes.editing) ==> final(self).store.conversations@[old(self).screen.selected as int].draft@
                    == fit(old(self).boxes.draft@.text, DRAFT_KEPT as nat)
            }),
            !(chat != old(self).screen.selected || !old(self).screen.open) ==> final(self).store.conversations == old(self).store.conversations,
            forall|i: int| 0 <= i < MAX_CHATS ==> (#[trigger] final(self).store.conversations@[i]).unread == old(self).store.conversations@[i].unread,
            final(self).finder == (Finder { open: false, ..old(self).finder }),
            final(self).marks == (Marks { message_menu: None, ..old(self).marks }),
            final(self).scroll == (Scroll { below_count: 0, ..old(self).scroll }),
            final(self).store.messages == old(self).store.messages && final(self).store.visible == old(self).store.visible,
            final(self).lists == old(self).lists && final(self).call == old(self).call && final(self).dialog == old(self).dialog,
            final(self).outbox == old(self).outbox && final(self).font == old(self).font,
    {
        self.cancel_reply();
        self.marks.message_menu = None;
        self.scroll.below_count = 0;
        if self.finder.open {
            self.finder.open = false;
            self.screen.focus = Focus::Message;
        }
        if chat != self.screen.selected || !self.screen.open {
            self.swap_draft(chat);
        }
    }

    /// Leaves the open conversation (Esc): what is typed stays as its draft.
    pub fn close_conversation(&mut self)
        requires
            old(self).wf(),
        ensures
            final(self).wf(),
            conversation_closed(*old(self), *final(self)),
    {
        self.screen.info_open = false;
        self.stash_draft();
        self.boxes.draft.clear();
        self.forget_history();
        self.screen.open = false;
        self.marks.picker_open = false;
        self.finder.open = false;
    }

    /// The core made (or found) conversation `chat`: leave the panel and show it.
    pub fn show_chat(&mut self, chat: usize)
        requires
            old(self).wf(),
        ensures
            final(self).wf(),
            !(chat < MAX_CHATS && old(self).store.conversations@[chat as int].used) ==> *final(self) == *old(self),
            (chat < MAX_CHATS && old(self).store.conversations@[chat as int].used) ==>
                final(self).screen.selected == chat && final(self).screen.open && !final(self).screen.new_chat,
    {
        if chat < MAX_CHATS && self.store.conversations[chat].used {
            self.close_new_chat();
            self.select(chat);
        }
    }

    /// "Mensagens para mim": the conversation with ourselves; the core makes it when it does not
    /// exist (`OPENCHAT` with no name).
    pub fn pick_self(&mut self)
        requires
            old(self).wf(),
        ensures
            final(self).wf(),
            self_picked(*old(self), *final(self)),
    {
        match self.conversation_named(SELF_CHAT) {
            Some(chat) => {
                self.close_new_chat();
                self.select(chat);
            },
            None => {
                self.tell_core("OPENCHAT\t".to_owned());
            },
        }
    }

    /// Opens the conversation with contact `index` if there already is one; else the core makes one
    /// and answers with `SHOWCHAT` (`OPENCHAT name`).
    pub fn pick_contact(&mut self, index: usize)
        requires
            old(self).wf(),
            index < old(self).lists.contacts@.len(),
        ensures
            final(self).wf(),
            contact_picked(*old(self), *final(self), index),
    {
        let name = self.lists.contacts[index].name.as_str().to_owned();
        match self.conversation_named(name.as_str()) {
            Some(chat) => {
                self.close_new_chat();
                self.select(chat);
            },
            None => {
                let mut line = chars_of("OPENCHAT\t");
                let mut rest = chars_of(name.as_str());
                line.append(&mut rest);
                proof { reveal_strlit("OPENCHAT\t"); }
                self.tell_core(string_of(line.as_slice()));
            },
        }
    }

    /// Starts a conversation with the phone number typed in the search box (`OPENCHAT` with its digits).
    pub fn pick_number(&mut self)
        requires
            old(self).wf(),
        ensures
            number_picked(*old(self), *final(self)),
    {
        let query = self.boxes.search.text();
        let mut digits: [u8; PHONE_DIGITS] = [0; PHONE_DIGITS];
        let count = match phone_digits(query.as_str(), &mut digits) {
            Some(count) => count,
            None => return,
        };
        let mut line = chars_of("OPENCHAT\t");
        let ghost head = line@;
        let mut i: usize = 0;
        assert(line@ =~= head + digits@.take(0).map_values(|d: u8| d as char));
        while i < count
            invariant
                0 <= i <= count,
                count <= PHONE_DIGITS,
                line@ == head + digits@.take(i as int).map_values(|d: u8| d as char),
            decreases count - i,
        {
            line.push(digits[i] as char);
            assert(line@ =~= head + digits@.take(i + 1).map_values(|d: u8| d as char));
            i = i + 1;
        }
        proof {
            reveal_strlit("OPENCHAT\t");
            let (kept, ok) = phone_scan(query@, query@.len());
            assert(count == kept.len());
            assert(digits@.take(count as int) =~= kept);
        }
        self.tell_core(string_of(line.as_slice()));
    }

    /// The first conversation in use named `name`.
    pub fn conversation_named(&self, name: &str) -> (chat: Option<usize>)
        requires
            self.wf(),
        ensures
            match chat {
                Some(c) => first_named(self.store.conversations@, name@) == Some(c as int) && c < MAX_CHATS,
                None => first_named(self.store.conversations@, name@) is None,
            },
    {
        let mut i: usize = 0;
        while i < MAX_CHATS
            invariant
                0 <= i <= MAX_CHATS,
                self.store.conversations@.len() == MAX_CHATS,
                forall|j: int| 0 <= j < i ==> !((#[trigger] self.store.conversations@[j]).used && self.store.conversations@[j].name@ == name@),
            decreases MAX_CHATS - i,
        {
            let conversation = &self.store.conversations[i];
            if conversation.used && crate::text::same_chars(chars_of(conversation.name.as_str()).as_slice(), chars_of(name).as_slice()) {
                return Some(i);
            }
            i = i + 1;
        }
        None
    }
}

/// The first conversation in use named `name`.
pub open spec fn first_named(conversations: Seq<Conversation>, name: Seq<char>) -> Option<int> {
    if exists|i: int| 0 <= i < conversations.len() && #[trigger] conversations[i].used && conversations[i].name@ == name {
        Some(choose|i: int| 0 <= i < conversations.len() && #[trigger] conversations[i].used && conversations[i].name@ == name
            && forall|j: int| 0 <= j < i ==> !(conversations[j].used && conversations[j].name@ == name))
    } else {
        None
    }
}

/// The emoji picker: a grid of cells over the conversation, scrolled a row at a time.
pub const PICKER_COLS: usize = 8;
pub const PICKER_ROWS: usize = 6;
pub const PICKER_CELL: i32 = 34;
pub const PICKER_PAD: i32 = 8;

} // verus!
