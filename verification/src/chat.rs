//! What the chat screen knows: the conversations, their messages, the text fields and the scroll
//! offsets, and what each action of the user or of the core does to them. What the screen has to
//! tell the core goes into `outbox`, one line at a time (without its line break), for the window
//! to write out.

use vstd::prelude::*;
use crate::field::{Field, typed, popped};
use crate::font::Font;
use crate::items::{Item, Conversation, Call, CallKind, CallPhase, Tab, Focus, NAME_CAPACITY, TIME_CAPACITY, TEXT_CAPACITY};
use crate::layout::can_measure;
use crate::screen::{Lists, CallScreen, Dialog, Screen, Scroll, Marks, Finder, Boxes, Store, Thumbs, History, Clipboard,
    Change, push_row, empty_field, filled_field, MAX_CALLS, MAX_FAVORITES, MAX_STORIES, MAX_CHANNELS, MAX_SUGGESTIONS,
    MAX_CONTACTS, SEARCH_CAPACITY, BANNER_CAPACITY, DIALOG_TITLE_CAPACITY, DIALOG_BODY_CAPACITY, HISTORY_RANK, LIVE_RANK};
use crate::text::{fit, string_of, chars_of};

verus! {

pub struct Chat {
    /// The atlases the bubbles are measured with.
    pub font: Font,
    pub screen: Screen,
    pub scroll: Scroll,
    pub marks: Marks,
    pub finder: Finder,
    pub boxes: Boxes,
    pub call: CallScreen,
    pub dialog: Dialog,
    pub lists: Lists,
    pub store: Store,
    pub thumbs: Thumbs,
    pub history: History,
    pub clipboard: Clipboard,
    /// Lines for the core, oldest first, each without its line break.
    pub outbox: Vec<String>,
}

/// `after` is `before` with the line `line` added.
pub open spec fn sent(before: Seq<String>, after: Seq<String>, line: Seq<char>) -> bool {
    &&& after.len() == before.len() + 1
    &&& after.take(before.len() as int) == before
    &&& after.last()@ == line
}

/// Two decimal digits of `n` (below 100), as the lines to the core number conversations.
pub open spec fn two_digit(n: int) -> Seq<char> {
    seq![crate::text::digit(n / 10), crate::text::digit(n % 10)]
}

/// The number of a conversation as `SEND` and the like write it: one digit below ten, else two.
pub open spec fn chat_number(n: int) -> Seq<char> {
    if n >= 10 { two_digit(n) } else { seq![crate::text::digit(n)] }
}

/// The row a list gets when it has room for it.
pub open spec fn grown<T>(before: Seq<T>, after: Seq<T>, limit: nat) -> bool {
    if before.len() >= limit {
        after == before
    } else {
        after.len() == before.len() + 1 && after.drop_last() == before
    }
}

/// The keypad closed, with its number cleared.
pub open spec fn dialpad_closed(prior: Chat, next: Chat) -> bool {
    &&& next.boxes.search@ == empty_field()
    &&& next.boxes == (Boxes { search: next.boxes.search, ..prior.boxes })
    &&& next == (Chat { call: CallScreen { dialpad_open: false, ..prior.call }, boxes: next.boxes,
        screen: Screen { focus: Focus::Message, ..prior.screen }, ..prior })
}

/// The keypad opened, with an empty number that has the caret.
pub open spec fn dialpad_opened(prior: Chat, next: Chat) -> bool {
    &&& next.boxes.search@ == empty_field()
    &&& next.boxes == (Boxes { search: next.boxes.search, ..prior.boxes })
    &&& next == (Chat { call: CallScreen { dialpad_open: true, ..prior.call }, boxes: next.boxes,
        screen: Screen { focus: Focus::Search, ..prior.screen }, ..prior })
}

/// A key of the keypad pressed.
pub open spec fn key_dialed(prior: Chat, next: Chat, key: char) -> bool {
    &&& next.boxes.search@ == (if key == '\u{8}' { popped(prior.boxes.search@) } else {
        typed(prior.boxes.search@, seq![key], SEARCH_CAPACITY as nat) })
    &&& next.boxes == (Boxes { search: next.boxes.search, ..prior.boxes })
    &&& next == (Chat { boxes: next.boxes, ..prior })
}

/// A ringing call answered.
pub open spec fn call_answered(prior: Chat, next: Chat) -> bool {
    &&& prior.call.phase != CallPhase::Incoming ==> next == prior
    &&& prior.call.phase == CallPhase::Incoming ==> ({
        &&& sent(prior.outbox@, next.outbox@, "ANSWER"@)
        &&& next == (Chat { call: CallScreen { phase: CallPhase::Active, since: next.call.since, ..prior.call },
            outbox: next.outbox, ..prior })
    })
}

/// The call hung up or declined.
pub open spec fn hung_up(prior: Chat, next: Chat) -> bool {
    &&& prior.call.phase == CallPhase::Idle ==> next == prior
    &&& prior.call.phase != CallPhase::Idle ==> ({
        &&& sent(prior.outbox@, next.outbox@, "HANGUP"@)
        &&& next == (Chat { call: CallScreen { phase: CallPhase::Idle, ..prior.call }, outbox: next.outbox, ..prior })
    })
}

/// Favourite `index` called.
pub open spec fn favorite_called(prior: Chat, next: Chat, index: usize) -> bool {
    &&& prior.call.phase != CallPhase::Idle ==> next == prior
    &&& prior.call.phase == CallPhase::Idle ==> ({
        &&& next.call.name@ == filled_field(prior.lists.favorites@[index as int].name@, NAME_CAPACITY as nat)
        &&& next.call == (CallScreen { name: next.call.name, phase: CallPhase::Ringing, muted: false, ..prior.call })
        &&& sent(prior.outbox@, next.outbox@, "DIAL\t"@ + next.call.name@.text)
        &&& next == (Chat { call: next.call, outbox: next.outbox, ..prior })
    })
}

/// The call is over at `now`: with a `reason` and a call on screen (ringing or talking), the
/// screen shows the reason until two seconds later; else the call screen goes.
pub open spec fn call_closed(prior: Chat, next: Chat, reason: Seq<char>, now: int) -> bool {
    let on_screen = prior.call.phase == CallPhase::Ringing || prior.call.phase == CallPhase::Active;
    &&& (reason.len() == 0 || !on_screen) ==> next == (Chat { call: CallScreen { phase: CallPhase::Idle, ..prior.call }, ..prior })
    &&& (reason.len() > 0 && on_screen) ==> ({
        &&& next.call.reason@ == filled_field(reason, BANNER_CAPACITY as nat)
        &&& next.call == (CallScreen { reason: next.call.reason, phase: CallPhase::Ended, until: (now + 2) as i64, ..prior.call })
        &&& next == (Chat { call: next.call, ..prior })
    })
}

/// A tick of the call's clock at `now`: the `Ended` screen closes once its time is up.
pub open spec fn clock_ticked(prior: Chat, next: Chat, now: int) -> bool {
    next == (if prior.call.phase == CallPhase::Ended && now >= prior.call.until {
        Chat { call: CallScreen { phase: CallPhase::Idle, ..prior.call }, ..prior }
    } else {
        prior
    })
}

/// A call ended with a reason shows it on the `Ended` screen, whose clock runs; a tick two
/// seconds or more later closes it, an earlier one leaves it. Ended without a reason, or with no
/// call on screen, the call screen goes at once.
pub proof fn lemma_call_end_then_tick(c0: Chat, c1: Chat, c2: Chat, reason: Seq<char>, now: int, later: int)
    requires
        call_closed(c0, c1, reason, now),
        clock_ticked(c1, c2, later),
        i64::MIN <= now <= i64::MAX - 2,
    ensures
        (reason.len() > 0 && (c0.call.phase == CallPhase::Ringing || c0.call.phase == CallPhase::Active)) ==> ({
            &&& c1.call.phase == CallPhase::Ended
            &&& crate::text::byte_len(reason) <= BANNER_CAPACITY ==> c1.call.reason@.text == reason
            &&& later >= now + 2 ==> c2.call.phase == CallPhase::Idle
            &&& later < now + 2 ==> c2 == c1
        }),
        !(reason.len() > 0 && (c0.call.phase == CallPhase::Ringing || c0.call.phase == CallPhase::Active))
            ==> c1.call.phase == CallPhase::Idle && c2 == c1,
{
    if crate::text::byte_len(reason) <= BANNER_CAPACITY {
        crate::field::lemma_pushed_fits(empty_field(), reason, BANNER_CAPACITY as nat);
        assert(Seq::<char>::empty() + reason =~= reason);
    }
}

impl Chat {
    /// What every action keeps: the sizes of the pools, the numbers of conversations in range, the
    /// text boxes in order and the font able to measure.
    pub open spec fn wf(&self) -> bool {
        &&& can_measure(&self.font)
        &&& self.screen.selected < crate::items::MAX_CHATS
        &&& self.scroll.wf()
        &&& self.marks.wf()
        &&& self.finder.field.wf()
        &&& self.boxes.wf()
        &&& self.call.wf()
        &&& self.dialog.wf()
        &&& self.lists.wf()
        &&& self.store.wf()
        &&& self.thumbs.wf()
        &&& self.history.wf()
    }

    /// The chat screen before the core has said anything: every list empty, no conversation open.
    pub fn new(font: Font) -> (chat: Chat)
        requires
            can_measure(&font),
        ensures
            chat.wf(),
            chat.screen.tab == Tab::Chats && chat.screen.focus == Focus::Message && chat.call.phase == CallPhase::Idle,
            !chat.screen.open && !chat.store.live && !chat.screen.new_chat && !chat.dialog.open && !chat.finder.open,
            chat.store.messages@.len() == 0 && chat.store.visible@.len() == 0 && chat.outbox@.len() == 0,
            forall|i: int| 0 <= i < crate::items::MAX_CHATS ==> !(#[trigger] chat.store.conversations@[i]).used,
            chat.lists.contacts@.len() == 0 && chat.lists.stories@.len() == 0 && chat.lists.channels@.len() == 0,
            chat.lists.suggestions@.len() == 0 && chat.lists.calls@.len() == 0 && chat.lists.favorites@.len() == 0,
            chat.store.next_history_rank == HISTORY_RANK && chat.store.next_live_rank == LIVE_RANK,
            chat.screen.selected == 0 && chat.scroll.list == 0 && chat.scroll.conversation == 0 && chat.scroll.panel == 0,
            chat.boxes.draft@ == empty_field() && chat.boxes.search@ == empty_field(),
            chat.screen.caret_on && chat.screen.window_focused,
            chat.font == font,
            chat.screen == (Screen { tab: Tab::Chats, focus: Focus::Message, selected: 0, open: false, unread_only: false,
                new_chat: false, menu_open: false, starred_open: false, chat_menu_open: false, info_open: false, caret_on: true,
                window_focused: true }),
            chat.scroll == (Scroll { list: 0, panel: 0, conversation: 0, forward: 0, picker_row: 0, below_count: 0, text_limit: 0,
                window_height: 0 }),
            chat.marks.hover is None && chat.marks.flash is None && chat.marks.message_menu is None,
            !chat.marks.picker_open && chat.marks.picker_reaction is None && !chat.marks.forward_open,
            chat.marks.forward_text@.len() == 0 && chat.marks.pending_accent is None,
            !chat.finder.open && chat.finder.field@ == empty_field() && chat.finder.current == 0,
            chat.boxes.profile@ == empty_field() && chat.boxes.banner@ == empty_field(),
            chat.boxes.reply_to@.len() == 0 && !chat.boxes.editing,
            !chat.call.dialpad_open && !chat.call.muted && chat.call.name@ == empty_field() && chat.call.reason@ == empty_field(),
            chat.call.since == 0 && chat.call.until == 0,
            chat.dialog.confirm_delete is None && chat.dialog.confirm_clear is None && chat.dialog.confirm_remove is None,
            chat.dialog.title@ == empty_field() && chat.dialog.body@ == empty_field(),
            chat.store.older_asked == 0 && chat.store.exhausted == 0 && chat.store.older_content == 0,
            chat.thumbs.next == 0 && chat.thumbs.asked == 0,
            chat.history.undo@.len() == 0 && chat.history.redo@.len() == 0 && chat.history.last_change == Change::Other,
            chat.clipboard.text@.len() == 0 && !chat.clipboard.pending && !chat.clipboard.paste_wanted,
    {
        Chat {
            font,
            screen: Screen {
                tab: Tab::Chats,
                focus: Focus::Message,
                selected: 0,
                open: false,
                unread_only: false,
                new_chat: false,
                menu_open: false,
                starred_open: false,
                chat_menu_open: false,
                info_open: false,
                caret_on: true,
                window_focused: true,
            },
            scroll: Scroll { list: 0, panel: 0, conversation: 0, forward: 0, picker_row: 0, below_count: 0, text_limit: 0, window_height: 0 },
            marks: Marks {
                hover: None,
                flash: None,
                message_menu: None,
                picker_open: false,
                picker_reaction: None,
                forward_open: false,
                forward_text: String::new(),
                pending_accent: None,
            },
            finder: Finder { open: false, field: Field::new(), current: 0 },
            boxes: Boxes {
                profile: Field::new(),
                search: Field::new(),
                draft: Field::new(),
                banner: Field::new(),
                reply_to: String::new(),
                editing: false,
            },
            call: CallScreen::new(),
            dialog: Dialog::new(),
            lists: Lists::new(),
            store: Store::new(),
            thumbs: Thumbs::new(),
            history: History { undo: Vec::new(), redo: Vec::new(), last_change: Change::Other },
            clipboard: Clipboard { text: String::new(), pending: false, paste_wanted: false },
            outbox: Vec::new(),
        }
    }

    /// The lines for the core written since the last call, oldest first; the outbox is left empty.
    pub fn take_outbox(&mut self) -> (lines: Vec<String>)
        ensures
            lines@ == old(self).outbox@,
            final(self).outbox@.len() == 0,
            *final(self) == (Chat { outbox: final(self).outbox, ..*old(self) }),
    {
        let mut lines: Vec<String> = Vec::new();
        std::mem::swap(&mut lines, &mut self.outbox);
        lines
    }

    pub fn tell_core(&mut self, line: String)
        ensures
            sent(old(self).outbox@, final(self).outbox@, line@),
            *final(self) == (Chat { outbox: final(self).outbox, ..*old(self) }),
    {
        self.outbox.push(line);
        assert(self.outbox@.take(old(self).outbox@.len() as int) =~= old(self).outbox@);
    }

    pub fn conversation(&self, index: usize) -> (conversation: &Conversation)
        requires
            index < self.store.conversations@.len(),
        ensures
            *conversation == self.store.conversations@[index as int],
    {
        &self.store.conversations[index]
    }

    // ---- the list screens

    pub fn add_call(&mut self, kind: CallKind, count: u8, time: &str, name: &str)
        requires
            old(self).wf(),
        ensures
            final(self).wf(),
            grown(old(self).lists.calls@, final(self).lists.calls@, MAX_CALLS as nat),
            old(self).lists.calls@.len() < MAX_CALLS ==> ({
                let call = final(self).lists.calls@.last();
                &&& call.kind == kind && call.count == count
                &&& call.time@ == fit(time@, TIME_CAPACITY as nat) && call.name@ == fit(name@, NAME_CAPACITY as nat)
            }),
            final(self).lists == (Lists { calls: final(self).lists.calls, ..old(self).lists }),
            *final(self) == (Chat { lists: final(self).lists, ..*old(self) }),
    {
        push_row(&mut self.lists.calls, MAX_CALLS, Call::filled(kind, count, time, name));
        assert(self.lists.calls@.len() > old(self).lists.calls@.len() ==> self.lists.calls@.drop_last() =~= old(self).lists.calls@);
    }

    pub fn set_profile(&mut self, name: &str)
        requires
            old(self).wf(),
        ensures
            final(self).wf(),
            final(self).boxes.profile@ == filled_field(name@, NAME_CAPACITY as nat),
            final(self).boxes == (Boxes { profile: final(self).boxes.profile, ..old(self).boxes }),
            *final(self) == (Chat { boxes: final(self).boxes, ..*old(self) }),
    {
        self.boxes.profile.clear();
        self.boxes.profile.push_str(name);
    }

    pub fn profile_name(&self) -> (name: String)
        ensures
            name@ == self.boxes.profile@.text,
    {
        self.boxes.profile.text()
    }

    pub fn set_my_status(&mut self, time: &str)
        requires
            old(self).wf(),
        ensures
            final(self).wf(),
            final(self).lists.my_status.time@ == fit(time@, TIME_CAPACITY as nat),
            final(self).lists.my_status.name@.len() == 0 && final(self).lists.my_status.text@.len() == 0,
            final(self).lists.my_status.first == 0 && final(self).lists.my_status.second == 0 && !final(self).lists.my_status.flag,
            final(self).lists == (Lists { my_status: final(self).lists.my_status, ..old(self).lists }),
            *final(self) == (Chat { lists: final(self).lists, ..*old(self) }),
    {
        self.lists.my_status = Item::filled(0, 0, false, time, "", "");
        proof { reveal_strlit(""); }
    }

    pub fn my_status(&self) -> (item: &Item)
        ensures
            *item == self.lists.my_status,
    {
        &self.lists.my_status
    }

    /// A contact's status: `segments` parts in its ring, the last `unseen` of them not yet seen.
    pub fn add_story(&mut self, segments: u16, unseen: u16, time: &str, name: &str)
        requires
            old(self).wf(),
        ensures
            final(self).wf(),
            grown(old(self).lists.stories@, final(self).lists.stories@, MAX_STORIES as nat),
            old(self).lists.stories@.len() < MAX_STORIES ==> ({
                let story = final(self).lists.stories@.last();
                &&& story.first == segments && story.second == unseen && story.flag == (unseen == 0)
                &&& story.time@ == fit(time@, TIME_CAPACITY as nat) && story.name@ == fit(name@, NAME_CAPACITY as nat)
                &&& story.text@.len() == 0
            }),
            final(self).lists == (Lists { stories: final(self).lists.stories, ..old(self).lists }),
            *final(self) == (Chat { lists: final(self).lists, ..*old(self) }),
    {
        proof { reveal_strlit(""); }
        push_row(&mut self.lists.stories, MAX_STORIES, Item::filled(segments, unseen, unseen == 0, time, name, ""));
        assert(self.lists.stories@.len() > old(self).lists.stories@.len() ==> self.lists.stories@.drop_last() =~= old(self).lists.stories@);
    }

    pub fn story(&self, index: usize) -> (item: &Item)
        requires
            index < self.lists.stories@.len(),
        ensures
            *item == self.lists.stories@[index as int],
    {
        &self.lists.stories[index]
    }

    pub fn add_channel(&mut self, unread: u16, time: &str, name: &str, preview: &str)
        requires
            old(self).wf(),
        ensures
            final(self).wf(),
            grown(old(self).lists.channels@, final(self).lists.channels@, MAX_CHANNELS as nat),
            old(self).lists.channels@.len() < MAX_CHANNELS ==> ({
                let channel = final(self).lists.channels@.last();
                &&& channel.first == unread && channel.second == 0 && !channel.flag
                &&& channel.time@ == fit(time@, TIME_CAPACITY as nat) && channel.name@ == fit(name@, NAME_CAPACITY as nat)
                &&& channel.text@ == fit(preview@, TEXT_CAPACITY as nat)
            }),
            final(self).lists == (Lists { channels: final(self).lists.channels, ..old(self).lists }),
            *final(self) == (Chat { lists: final(self).lists, ..*old(self) }),
    {
        push_row(&mut self.lists.channels, MAX_CHANNELS, Item::filled(unread, 0, false, time, name, preview));
        assert(self.lists.channels@.len() > old(self).lists.channels@.len() ==> self.lists.channels@.drop_last() =~= old(self).lists.channels@);
    }

    pub fn channel(&self, index: usize) -> (item: &Item)
        requires
            index < self.lists.channels@.len(),
        ensures
            *item == self.lists.channels@[index as int],
    {
        &self.lists.channels[index]
    }

    pub fn add_suggestion(&mut self, verified: bool, followers: &str, name: &str)
        requires
            old(self).wf(),
        ensures
            final(self).wf(),
            grown(old(self).lists.suggestions@, final(self).lists.suggestions@, MAX_SUGGESTIONS as nat),
            old(self).lists.suggestions@.len() < MAX_SUGGESTIONS ==> ({
                let suggestion = final(self).lists.suggestions@.last();
                &&& suggestion.flag == verified && suggestion.first == 0 && suggestion.second == 0
                &&& suggestion.time@.len() == 0 && suggestion.name@ == fit(name@, NAME_CAPACITY as nat)
                &&& suggestion.text@ == fit(followers@, TEXT_CAPACITY as nat)
            }),
            final(self).lists == (Lists { suggestions: final(self).lists.suggestions, ..old(self).lists }),
            *final(self) == (Chat { lists: final(self).lists, ..*old(self) }),
    {
        proof { reveal_strlit(""); }
        push_row(&mut self.lists.suggestions, MAX_SUGGESTIONS, Item::filled(0, 0, verified, "", name, followers));
        assert(self.lists.suggestions@.len() > old(self).lists.suggestions@.len() ==> self.lists.suggestions@.drop_last() =~= old(self).lists.suggestions@);
    }

    pub fn suggestion(&self, index: usize) -> (item: &Item)
        requires
            index < self.lists.suggestions@.len(),
        ensures
            *item == self.lists.suggestions@[index as int],
    {
        &self.lists.suggestions[index]
    }

    /// Whether some status has not been seen yet (the dot on the rail).
    pub fn has_unseen_status(&self) -> (unseen: bool)
        ensures
            unseen == exists|i: int| 0 <= i < self.lists.stories@.len() && #[trigger] self.lists.stories@[i].second > 0,
    {
        let mut i: usize = 0;
        while i < self.lists.stories.len()
            invariant
                0 <= i <= self.lists.stories@.len(),
                forall|j: int| 0 <= j < i ==> #[trigger] self.lists.stories@[j].second == 0,
            decreases self.lists.stories@.len() - i,
        {
            if self.lists.stories[i].second > 0 {
                return true;
            }
            i = i + 1;
        }
        false
    }

    /// Whether some followed channel has unread updates.
    pub fn has_unread_channel(&self) -> (unread: bool)
        ensures
            unread == exists|i: int| 0 <= i < self.lists.channels@.len() && #[trigger] self.lists.channels@[i].first > 0,
    {
        let mut i: usize = 0;
        while i < self.lists.channels.len()
            invariant
                0 <= i <= self.lists.channels@.len(),
                forall|j: int| 0 <= j < i ==> #[trigger] self.lists.channels@[j].first == 0,
            decreases self.lists.channels@.len() - i,
        {
            if self.lists.channels[i].first > 0 {
                return true;
            }
            i = i + 1;
        }
        false
    }

    pub fn add_contact(&mut self, name: &str)
        requires
            old(self).wf(),
        ensures
            final(self).wf(),
            grown(old(self).lists.contacts@, final(self).lists.contacts@, MAX_CONTACTS as nat),
            old(self).lists.contacts@.len() < MAX_CONTACTS ==> ({
                let contact = final(self).lists.contacts@.last();
                &&& contact.name@ == fit(name@, NAME_CAPACITY as nat)
                &&& contact.first == 0 && contact.second == 0 && !contact.flag
                &&& contact.time@.len() == 0 && contact.text@.len() == 0
            }),
            final(self).lists == (Lists { contacts: final(self).lists.contacts, ..old(self).lists }),
            *final(self) == (Chat { lists: final(self).lists, ..*old(self) }),
    {
        proof { reveal_strlit(""); }
        push_row(&mut self.lists.contacts, MAX_CONTACTS, Item::filled(0, 0, false, "", name, ""));
        assert(self.lists.contacts@.len() > old(self).lists.contacts@.len() ==> self.lists.contacts@.drop_last() =~= old(self).lists.contacts@);
    }

    pub fn contact(&self, index: usize) -> (item: &Item)
        requires
            index < self.lists.contacts@.len(),
        ensures
            *item == self.lists.contacts@[index as int],
    {
        &self.lists.contacts[index]
    }

    pub fn add_favorite(&mut self, name: &str)
        requires
            old(self).wf(),
        ensures
            final(self).wf(),
            grown(old(self).lists.favorites@, final(self).lists.favorites@, MAX_FAVORITES as nat),
            old(self).lists.favorites@.len() < MAX_FAVORITES ==> ({
                let favorite = final(self).lists.favorites@.last();
                &&& favorite.name@ == fit(name@, NAME_CAPACITY as nat)
                &&& favorite.kind == CallKind::Received && favorite.count == 1 && favorite.time@.len() == 0
            }),
            final(self).lists == (Lists { favorites: final(self).lists.favorites, ..old(self).lists }),
            *final(self) == (Chat { lists: final(self).lists, ..*old(self) }),
    {
        proof { reveal_strlit(""); }
        push_row(&mut self.lists.favorites, MAX_FAVORITES, Call::filled(CallKind::Received, 1, "", name));
        assert(self.lists.favorites@.len() > old(self).lists.favorites@.len() ==> self.lists.favorites@.drop_last() =~= old(self).lists.favorites@);
    }

    pub fn call(&self, index: usize) -> (call: &Call)
        requires
            index < self.lists.calls@.len(),
        ensures
            *call == self.lists.calls@[index as int],
    {
        &self.lists.calls[index]
    }

    pub fn favorite(&self, index: usize) -> (call: &Call)
        requires
            index < self.lists.favorites@.len(),
        ensures
            *call == self.lists.favorites@[index as int],
    {
        &self.lists.favorites[index]
    }

    /// A call that just happened, at the top of the recents (the oldest goes when the list is full).
    pub fn add_call_first(&mut self, kind: CallKind, count: u8, time: &str, name: &str)
        requires
            old(self).wf(),
        ensures
            final(self).wf(),
            ({
                let kept = if old(self).lists.calls@.len() == MAX_CALLS { old(self).lists.calls@.drop_last() } else { old(self).lists.calls@ };
                let call = final(self).lists.calls@[0];
                &&& final(self).lists.calls@.len() == kept.len() + 1
                &&& final(self).lists.calls@.drop_first() == kept
                &&& call.kind == kind && call.count == count
                &&& call.time@ == fit(time@, TIME_CAPACITY as nat) && call.name@ == fit(name@, NAME_CAPACITY as nat)
            }),
            final(self).lists == (Lists { calls: final(self).lists.calls, ..old(self).lists }),
            *final(self) == (Chat { lists: final(self).lists, ..*old(self) }),
    {
        if self.lists.calls.len() == MAX_CALLS {
            self.lists.calls.pop();
        }
        let ghost kept = self.lists.calls@;
        self.lists.calls.insert(0, Call::filled(kind, count, time, name));
        assert(self.lists.calls@.drop_first() =~= kept);
    }

    // ---- the keypad and calls

    pub fn open_dialpad(&mut self)
        requires
            old(self).wf(),
        ensures
            final(self).wf(),
            dialpad_opened(*old(self), *final(self)),
    {
        self.call.dialpad_open = true;
        self.boxes.search.clear();
        self.screen.focus = Focus::Search;
    }

    pub fn close_dialpad(&mut self)
        requires
            old(self).wf(),
        ensures
            final(self).wf(),
            dialpad_closed(*old(self), *final(self)),
    {
        self.call.dialpad_open = false;
        self.boxes.search.clear();
        self.screen.focus = Focus::Message;
    }

    /// A key of the on-screen keypad: a digit, `+`, or backspace (`\u{8}`).
    pub fn dial_key(&mut self, key: char)
        requires
            old(self).wf(),
        ensures
            final(self).wf(),
            key_dialed(*old(self), *final(self), key),
    {
        if key == '\u{8}' {
            self.boxes.search.pop();
        } else {
            self.boxes.search.push(key);
        }
    }

    pub fn call_name(&self) -> (name: String)
        ensures
            name@ == self.call.name@.text,
    {
        self.call.name.text()
    }

    /// We call `name`: the core is told (`DIAL name`), and the call rings until it says the other
    /// side answered. Nothing happens while another call is on.
    pub fn start_call(&mut self, name: &str)
        requires
            old(self).wf(),
        ensures
            final(self).wf(),
            old(self).call.phase != CallPhase::Idle ==> *final(self) == *old(self),
            old(self).call.phase == CallPhase::Idle ==> ({
                &&& final(self).call.name@ == filled_field(name@, NAME_CAPACITY as nat)
                &&& final(self).call == (CallScreen { name: final(self).call.name, phase: CallPhase::Ringing, muted: false, ..old(self).call })
                &&& sent(old(self).outbox@, final(self).outbox@, "DIAL\t"@ + final(self).call.name@.text)
                &&& *final(self) == (Chat { call: final(self).call, outbox: final(self).outbox, ..*old(self) })
            }),
    {
        if self.call.phase != CallPhase::Idle {
            return;
        }
        self.call.begin(name, CallPhase::Ringing);
        let mut line = chars_of("DIAL\t");
        let named = self.call.name.text();
        let mut rest = chars_of(named.as_str());
        line.append(&mut rest);
        proof { reveal_strlit("DIAL\t"); }
        self.tell_core(string_of(line.as_slice()));
    }

    /// Calls favourite number `index`.
    pub fn call_favorite(&mut self, index: usize)
        requires
            old(self).wf(),
            index < old(self).lists.favorites@.len(),
        ensures
            final(self).wf(),
            favorite_called(*old(self), *final(self), index),
    {
        let name = self.lists.favorites[index].name.clone();
        self.start_call(name.as_str());
    }

    /// Someone calls us.
    pub fn incoming_call(&mut self, name: &str)
        requires
            old(self).wf(),
        ensures
            final(self).wf(),
            old(self).call.phase != CallPhase::Idle ==> *final(self) == *old(self),
            old(self).call.phase == CallPhase::Idle ==> ({
                &&& final(self).call.name@ == filled_field(name@, NAME_CAPACITY as nat)
                &&& final(self).call == (CallScreen { name: final(self).call.name, phase: CallPhase::Incoming, muted: false, ..old(self).call })
                &&& *final(self) == (Chat { call: final(self).call, ..*old(self) })
            }),
    {
        if self.call.phase == CallPhase::Idle {
            self.call.begin(name, CallPhase::Incoming);
        }
    }

    /// We answer the call that rings, at `now` (seconds since 1970): the core is told (`ANSWER`).
    pub fn answer_call_at(&mut self, now: i64)
        ensures
            old(self).call.phase != CallPhase::Incoming ==> *final(self) == *old(self),
            old(self).call.phase == CallPhase::Incoming ==> ({
                &&& sent(old(self).outbox@, final(self).outbox@, "ANSWER"@)
                &&& *final(self) == (Chat { call: CallScreen { phase: CallPhase::Active, since: now, ..old(self).call },
                    outbox: final(self).outbox, ..*old(self) })
            }),
    {
        if self.call.phase == CallPhase::Incoming {
            self.call.phase = CallPhase::Active;
            self.call.since = now;
            self.tell_core("ANSWER".to_owned());
        }
    }

    /// We answer the call that rings, now.
    pub fn answer_call(&mut self)
        ensures
            call_answered(*old(self), *final(self)),
    {
        let now = now_seconds();
        self.answer_call_at(now);
    }

    /// Declines, or ends, whatever call there is; the core is told (`HANGUP`).
    pub fn hang_up(&mut self)
        ensures
            hung_up(*old(self), *final(self)),
    {
        if self.call.phase != CallPhase::Idle {
            self.call.phase = CallPhase::Idle;
            self.tell_core("HANGUP".to_owned());
        }
    }

    /// The core says the call we placed was picked up, at `now`.
    pub fn call_connected_at(&mut self, now: i64)
        ensures
            old(self).call.phase != CallPhase::Ringing ==> *final(self) == *old(self),
            old(self).call.phase == CallPhase::Ringing ==>
                *final(self) == (Chat { call: CallScreen { phase: CallPhase::Active, since: now, ..old(self).call }, ..*old(self) }),
    {
        if self.call.phase == CallPhase::Ringing {
            self.call.phase = CallPhase::Active;
            self.call.since = now;
        }
    }

    /// The core says the call we placed was picked up, now.
    pub fn call_connected(&mut self)
        ensures
            old(self).call.phase != CallPhase::Ringing ==> *final(self) == *old(self),
            old(self).call.phase == CallPhase::Ringing ==>
                *final(self) == (Chat { call: CallScreen { phase: CallPhase::Active, since: final(self).call.since, ..old(self).call }, ..*old(self) }),
    {
        let now = now_seconds();
        self.call_connected_at(now);
    }

    /// The call is over, at `now`. With a `reason` and a call on screen, the screen stays two seconds to show it.
    pub fn call_ended_at(&mut self, reason: &str, now: i64)
        requires
            old(self).wf(),
            now <= i64::MAX - 2,
        ensures
            final(self).wf(),
            call_closed(*old(self), *final(self), reason@, now as int),
    {
        let on_screen = self.call.phase == CallPhase::Ringing || self.call.phase == CallPhase::Active;
        if reason.unicode_len() == 0 || !on_screen {
            self.call.phase = CallPhase::Idle;
            return;
        }
        self.call.end_with(reason, now);
    }

    /// The call is over, now: `call_ended_at` with the clock's reading (in seconds, so the ended call
    /// stays until two seconds after it).
    pub fn call_ended(&mut self, reason: &str)
        requires
            old(self).wf(),
        ensures
            final(self).wf(),
            (reason@.len() == 0 || !(old(self).call.phase == CallPhase::Ringing || old(self).call.phase == CallPhase::Active))
                ==> *final(self) == (Chat { call: CallScreen { phase: CallPhase::Idle, ..old(self).call }, ..*old(self) }),
            (reason@.len() > 0 && (old(self).call.phase == CallPhase::Ringing || old(self).call.phase == CallPhase::Active)) ==> ({
                &&& final(self).call.reason@ == filled_field(reason@, BANNER_CAPACITY as nat)
                &&& final(self).call == (CallScreen { reason: final(self).call.reason, phase: CallPhase::Ended, until: final(self).call.until, ..old(self).call })
                &&& final(self).call.until >= 2
                &&& *final(self) == (Chat { call: final(self).call, ..*old(self) })
            }),
    {
        let now = now_seconds();
        let now = if now > i64::MAX - 2 { i64::MAX - 2 } else { now };
        self.call_ended_at(reason, now);
    }

    pub fn call_reason(&self) -> (reason: String)
        ensures
            reason@ == self.call.reason@.text,
    {
        self.call.reason.text()
    }

    /// Whether the screen needs redrawing every second (a clock or a countdown is running).
    pub fn call_ticking(&self) -> (ticking: bool)
        ensures
            ticking == (self.call.phase == CallPhase::Active || self.call.phase == CallPhase::Ended),
    {
        self.call.phase == CallPhase::Active || self.call.phase == CallPhase::Ended
    }

    /// Called once a second while `call_ticking`, at `now`: the `Ended` screen closes when its time is up.
    pub fn tick_at(&mut self, now: i64)
        ensures
            clock_ticked(*old(self), *final(self), now as int),
    {
        if self.call.phase == CallPhase::Ended && now >= self.call.until {
            self.call.phase = CallPhase::Idle;
        }
    }

    /// Called once a second while `call_ticking`.
    pub fn tick(&mut self)
        ensures
            old(self).call.phase != CallPhase::Ended ==> *final(self) == *old(self),
            old(self).call.phase == CallPhase::Ended ==> *final(self) == *old(self)
                || *final(self) == (Chat { call: CallScreen { phase: CallPhase::Idle, ..old(self).call }, ..*old(self) }),
    {
        let now = now_seconds();
        self.tick_at(now);
    }

    /// The call could not be made: whatever was on screen goes, and a message box says why.
    pub fn call_failed(&mut self, title: &str, body: &str)
        requires
            old(self).wf(),
        ensures
            final(self).wf(),
            final(self).dialog.title@ == filled_field(title@, DIALOG_TITLE_CAPACITY as nat),
            final(self).dialog.body@ == filled_field(body@, DIALOG_BODY_CAPACITY as nat),
            final(self).dialog == (Dialog { title: final(self).dialog.title, body: final(self).dialog.body, open: true, ..old(self).dialog }),
            *final(self) == (Chat { call: CallScreen { phase: CallPhase::Idle, ..old(self).call }, dialog: final(self).dialog, ..*old(self) }),
    {
        self.call.phase = CallPhase::Idle;
        self.dialog.show(title, body);
    }

    pub fn dialog_title(&self) -> (title: String)
        ensures
            title@ == self.dialog.title@.text,
    {
        self.dialog.title.text()
    }

    pub fn dialog_body(&self) -> (body: String)
        ensures
            body@ == self.dialog.body@.text,
    {
        self.dialog.body.text()
    }
}

/// Seconds since 1970 on the machine's clock, as an `i64`.
pub fn now_seconds() -> (now: i64)
    ensures
        now >= 0,
{
    let seconds = crate::link::unix_seconds();
    if seconds > 0x7fff_ffff_ffff_ffff { 0x7fff_ffff_ffff_ffff } else { seconds as i64 }
}

} // verus!
