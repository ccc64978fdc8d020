//! The parts the chat screen's state is made of, each with what it keeps true: the list screens,
//! the call screen, the message box, what is open and where it is scrolled, the text boxes, the
//! conversations and messages, the preview pictures, the undo history and the clipboard.

use vstd::prelude::*;
use crate::field::{Field, FieldView, pushed, typed, popped};
use crate::items::{Item, Conversation, Call, Message, CallKind, CallPhase, Tab, Focus, MAX_CHATS, NAME_CAPACITY,
    MESSAGE_CAPACITY, TIME_CAPACITY, TEXT_CAPACITY, ID_CAPACITY, LABEL_CAPACITY};
use crate::text::{fit, byte_len};

verus! {

pub const MAX_MESSAGES: usize = 384;
pub const FIND_CAPACITY: usize = 48;
pub const SEARCH_CAPACITY: usize = 48;
pub const BANNER_CAPACITY: usize = 96;
pub const MAX_CALLS: usize = 24;
pub const MAX_FAVORITES: usize = 6;
pub const MAX_STORIES: usize = 8;
pub const MAX_CHANNELS: usize = 6;
pub const MAX_SUGGESTIONS: usize = 6;
pub const MAX_CONTACTS: usize = 40;
/// Preview pictures kept at a time, each at most this many pixels on a side.
pub const THUMB_SLOTS: usize = 6;
pub const THUMB_SIDE: usize = 48;
pub const THUMB_PIXELS: usize = 2304;
pub const HISTORY_RANK: u32 = 1_000_000;
pub const LIVE_RANK: u32 = 2_000_000;
/// How many editing steps Ctrl+Z goes back through.
pub const UNDO_DEPTH: usize = 6;
pub const DIALOG_TITLE_CAPACITY: usize = 64;
pub const DIALOG_BODY_CAPACITY: usize = 192;

/// An empty text box.
pub open spec fn empty_field() -> FieldView {
    FieldView { text: Seq::empty(), cursor: 0, anchor: 0 }
}

/// The box after clearing it and typing `s` into it.
pub open spec fn filled_field(s: Seq<char>, capacity: nat) -> FieldView {
    pushed(empty_field(), s, capacity)
}

// ---- the list screens

/// The rows of the list screens: contacts, statuses, channels, suggestions, calls and favourites.
pub struct Lists {
    pub contacts: Vec<Item>,
    pub my_status: Item,
    pub stories: Vec<Item>,
    pub channels: Vec<Item>,
    pub suggestions: Vec<Item>,
    pub calls: Vec<Call>,
    pub favorites: Vec<Call>,
}

impl Lists {
    pub open spec fn wf(&self) -> bool {
        &&& self.contacts@.len() <= MAX_CONTACTS
        &&& self.stories@.len() <= MAX_STORIES
        &&& self.channels@.len() <= MAX_CHANNELS
        &&& self.suggestions@.len() <= MAX_SUGGESTIONS
        &&& self.calls@.len() <= MAX_CALLS
        &&& self.favorites@.len() <= MAX_FAVORITES
    }

    pub fn new() -> (lists: Lists)
        ensures
            lists.wf(),
            lists.contacts@.len() == 0 && lists.stories@.len() == 0 && lists.channels@.len() == 0,
            lists.suggestions@.len() == 0 && lists.calls@.len() == 0 && lists.favorites@.len() == 0,
    {
        Lists {
            contacts: Vec::new(),
            my_status: Item::empty(),
            stories: Vec::new(),
            channels: Vec::new(),
            suggestions: Vec::new(),
            calls: Vec::new(),
            favorites: Vec::new(),
        }
    }
}

/// A row of `items` at its end, unless there are already `limit`.
pub fn push_row<T>(items: &mut Vec<T>, limit: usize, item: T)
    ensures
        old(items)@.len() >= limit ==> final(items)@ == old(items)@,
        old(items)@.len() < limit ==> final(items)@ == old(items)@.push(item),
{
    if items.len() < limit {
        items.push(item);
    }
}

// ---- the call screen

/// The call screen: the keypad, where the call stands and with whom, and why it ended.
pub struct CallScreen {
    /// The phone-number keypad of the calls tab replaces its list.
    pub dialpad_open: bool,
    pub phase: CallPhase,
    pub muted: bool,
    pub name: Field<NAME_CAPACITY>,
    /// When the call was picked up (seconds since 1970).
    pub since: i64,
    pub reason: Field<BANNER_CAPACITY>,
    /// When the `Ended` screen closes by itself.
    pub until: i64,
}

impl CallScreen {
    pub open spec fn wf(&self) -> bool {
        self.name.wf() && self.reason.wf()
    }

    pub fn new() -> (call: CallScreen)
        ensures
            call.wf(),
            !call.dialpad_open && call.phase == CallPhase::Idle && !call.muted,
            call.name@ == empty_field() && call.reason@ == empty_field(),
            call.since == 0 && call.until == 0,
    {
        CallScreen { dialpad_open: false, phase: CallPhase::Idle, muted: false, name: Field::new(), since: 0, reason: Field::new(), until: 0 }
    }

    /// A call with `name` enters `phase`, with the microphone on.
    pub fn begin(&mut self, name: &str, phase: CallPhase)
        requires
            old(self).wf(),
        ensures
            final(self).wf(),
            final(self).name@ == filled_field(name@, NAME_CAPACITY as nat),
            *final(self) == (CallScreen { name: final(self).name, phase, muted: false, ..*old(self) }),
    {
        self.name.clear();
        self.name.push_str(name);
        self.phase = phase;
        self.muted = false;
    }

    /// The call ends showing `reason`, until two seconds after `now`.
    pub fn end_with(&mut self, reason: &str, now: i64)
        requires
            old(self).wf(),
            now <= i64::MAX - 2,
        ensures
            final(self).wf(),
            final(self).reason@ == filled_field(reason@, BANNER_CAPACITY as nat),
            *final(self) == (CallScreen { reason: final(self).reason, phase: CallPhase::Ended, until: (now + 2) as i64, ..*old(self) }),
    {
        self.reason.clear();
        self.reason.push_str(reason);
        self.phase = CallPhase::Ended;
        self.until = now + 2;
    }
}

// ---- the message box

/// A message box over everything: its title and text, and what it asks to confirm.
pub struct Dialog {
    pub open: bool,
    pub title: Field<DIALOG_TITLE_CAPACITY>,
    pub body: Field<DIALOG_BODY_CAPACITY>,
    /// While the message box asks whether to delete message `n` for everyone.
    pub confirm_delete: Option<usize>,
    /// The conversation whose messages the box asks to clear.
    pub confirm_clear: Option<usize>,
    /// The conversation whose removal from the list the box asks to confirm.
    pub confirm_remove: Option<usize>,
}

impl Dialog {
    pub open spec fn wf(&self) -> bool {
        &&& self.title.wf() && self.body.wf()
        &&& self.confirm_clear matches Some(c) ==> c < MAX_CHATS
        &&& self.confirm_remove matches Some(c) ==> c < MAX_CHATS
    }

    pub fn new() -> (dialog: Dialog)
        ensures
            dialog.wf(),
            !dialog.open && dialog.confirm_delete is None && dialog.confirm_clear is None && dialog.confirm_remove is None,
            dialog.title@ == empty_field() && dialog.body@ == empty_field(),
    {
        Dialog { open: false, title: Field::new(), body: Field::new(), confirm_delete: None, confirm_clear: None, confirm_remove: None }
    }

    /// Opens the box with `title` and `body`.
    pub fn show(&mut self, title: &str, body: &str)
        requires
            old(self).wf(),
        ensures
            final(self).wf(),
            final(self).title@ == filled_field(title@, DIALOG_TITLE_CAPACITY as nat),
            final(self).body@ == filled_field(body@, DIALOG_BODY_CAPACITY as nat),
            *final(self) == (Dialog { title: final(self).title, body: final(self).body, open: true, ..*old(self) }),
    {
        self.title.clear();
        self.title.push_str(title);
        self.body.clear();
        self.body.push_str(body);
        self.open = true;
    }

    /// Whether the box asks something (its main button then deletes or clears).
    pub open spec fn asks(&self) -> bool {
        self.confirm_delete is Some || self.confirm_clear is Some || self.confirm_remove is Some
    }
}

// ---- what is open

/// What the screen shows: the rail tab, which box has the caret, the open conversation, and which
/// panels and menus are up.
pub struct Screen {
    pub tab: Tab,
    pub focus: Focus,
    pub selected: usize,
    /// Whether a conversation is open; until one is, the right side shows the welcome card.
    pub open: bool,
    /// The "Não lidas" filter chip.
    pub unread_only: bool,
    /// Whether the new-conversation panel replaces the conversation list.
    pub new_chat: bool,
    /// Whether the three-dots menu of the panel header is showing.
    pub menu_open: bool,
    /// The panel listing the favourite messages replaces the conversation list.
    pub starred_open: bool,
    /// The dropdown of the three dots in the conversation header.
    pub chat_menu_open: bool,
    /// The contact's panel over the right edge of the conversation.
    pub info_open: bool,
    /// The caret is in its visible half of the blink; any key or click makes it visible again.
    pub caret_on: bool,
    /// The window has the keyboard focus (no caret, no blinking, while it does not).
    pub window_focused: bool,
}

/// Where things are scrolled, and the window's size.
pub struct Scroll {
    pub list: i32,
    pub panel: i32,
    pub conversation: i32,
    pub forward: i32,
    pub picker_row: usize,
    /// Messages that arrived in the open conversation while it was scrolled up (the button that jumps down counts them).
    pub below_count: u8,
    pub text_limit: i32,
    pub window_height: i32,
}

impl Scroll {
    pub open spec fn wf(&self) -> bool {
        &&& -0x1000_0000 <= self.list <= 0x1000_0000
        &&& -0x1000_0000 <= self.panel <= 0x1000_0000
        &&& -0x1000_0000 <= self.conversation <= 0x1000_0000
        &&& -0x1000_0000 <= self.forward <= 0x1000_0000
        &&& self.picker_row <= 0x100_0000
        &&& -0x1000_0000 <= self.text_limit <= 0x1000_0000
        &&& 0 <= self.window_height <= 0x100_0000
    }
}

/// Marks on messages and the small pop-ups: the message under the pointer, the one flashed after a
/// jump, the message menu, the emoji picker, the forward list, and a dead key waiting for its letter.
pub struct Marks {
    pub hover: Option<usize>,
    pub flash: Option<usize>,
    /// The pop-up over a message opened with the right button: (message number, x, y).
    pub message_menu: Option<(usize, i32, i32)>,
    pub picker_open: bool,
    /// The message an open emoji picker reacts to.
    pub picker_reaction: Option<usize>,
    /// The list of conversations a message is being forwarded to, and the text going.
    pub forward_open: bool,
    pub forward_text: String,
    pub pending_accent: Option<char>,
}

impl Marks {
    pub open spec fn wf(&self) -> bool {
        &&& self.forward_text@.len() <= MESSAGE_CAPACITY
        &&& byte_len(self.forward_text@) <= MESSAGE_CAPACITY
    }
}

/// The bar that looks for text in the open conversation: whether it shows, what it looks for, and
/// which of the matches (oldest first) is the current one.
pub struct Finder {
    pub open: bool,
    pub field: Field<FIND_CAPACITY>,
    pub current: usize,
}

/// The text boxes: the account name, the search box, the message being written, the banner of bad
/// news, and the message the next one answers or replaces.
pub struct Boxes {
    pub profile: Field<NAME_CAPACITY>,
    pub search: Field<SEARCH_CAPACITY>,
    pub draft: Field<MESSAGE_CAPACITY>,
    /// A line of bad news from the core, shown until the next key or click.
    pub banner: Field<BANNER_CAPACITY>,
    /// The message the next one answers (its id), while a reply is being written.
    pub reply_to: String,
    /// The message named by `reply_to` is being edited: its text is in the box and sending replaces it.
    pub editing: bool,
}

impl Boxes {
    pub open spec fn wf(&self) -> bool {
        &&& self.profile.wf() && self.search.wf() && self.draft.wf() && self.banner.wf()
        &&& self.reply_to@.len() <= ID_CAPACITY
    }
}

// ---- conversations and messages

/// A message as the chat keeps it: a text that fits its room, a five-character time, ids that fit.
pub open spec fn message_wf(m: Message) -> bool {
    &&& m.chat < MAX_CHATS
    &&& byte_len(m.text@) <= MESSAGE_CAPACITY
    &&& m.text@.len() <= MESSAGE_CAPACITY
    &&& m.time@.len() == 5
    &&& m.id@.len() <= ID_CAPACITY
    &&& m.reply@.len() <= ID_CAPACITY
    &&& m.label@.len() <= LABEL_CAPACITY
    &&& (m.slot as int) < THUMB_SLOTS
}

/// The conversations, the order the list shows them in, and all the messages.
pub struct Store {
    pub conversations: Vec<Conversation>,
    /// Conversations that match the search, in list order.
    pub visible: Vec<u8>,
    pub messages: Vec<Message>,
    /// Ranks handed out to conversations: the history counts down from `HISTORY_RANK`, live activity
    /// counts up from `LIVE_RANK`, so anything live outranks anything from the history.
    pub next_history_rank: u32,
    pub next_live_rank: u32,
    /// False while the core is still loading history: those messages are not news.
    pub live: bool,
    /// Waiting for older messages of the open conversation: when it was asked (0: not waiting) and
    /// how tall the conversation was then. `exhausted` marks the conversations that have no more.
    pub older_asked: i64,
    pub older_content: i32,
    pub exhausted: u64,
}

impl Store {
    pub open spec fn wf(&self) -> bool {
        &&& self.conversations@.len() == MAX_CHATS
        &&& forall|i: int| 0 <= i < MAX_CHATS ==> (#[trigger] self.conversations@[i]).draft@.len() <= MESSAGE_CAPACITY
            && self.conversations@[i].name@.len() <= NAME_CAPACITY
        &&& self.messages@.len() <= MAX_MESSAGES
        &&& forall|i: int| 0 <= i < self.messages@.len() ==> message_wf(#[trigger] self.messages@[i])
        &&& self.visible@.len() <= MAX_CHATS
        &&& forall|i: int| 0 <= i < self.visible@.len() ==> (#[trigger] self.visible@[i]) < MAX_CHATS
        &&& 0 <= self.older_content <= 0x200_0000
    }

    pub fn new() -> (store: Store)
        ensures
            store.wf(),
            forall|i: int| 0 <= i < MAX_CHATS ==> crate::items::blank(#[trigger] store.conversations@[i]),
            store.visible@.len() == 0 && store.messages@.len() == 0,
            store.next_history_rank == HISTORY_RANK && store.next_live_rank == LIVE_RANK,
            !store.live && store.older_asked == 0 && store.exhausted == 0 && store.older_content == 0,
    {
        let mut conversations: Vec<Conversation> = Vec::new();
        let mut i: usize = 0;
        while i < MAX_CHATS
            invariant
                0 <= i <= MAX_CHATS,
                conversations@.len() == i,
                forall|j: int| 0 <= j < i ==> crate::items::blank(#[trigger] conversations@[j]),
            decreases MAX_CHATS - i,
        {
            conversations.push(Conversation::empty());
            i = i + 1;
        }
        Store {
            conversations,
            visible: Vec::new(),
            messages: Vec::new(),
            next_history_rank: HISTORY_RANK,
            next_live_rank: LIVE_RANK,
            live: false,
            older_asked: 0,
            older_content: 0,
            exhausted: 0,
        }
    }
}

/// The pool of preview pictures (RGB565, `THUMB_SIDE` wide rows), their sizes, the next slot to
/// reuse, and when the preview asked for last was asked (0: none is pending).
pub struct Thumbs {
    pub pool: Vec<Vec<u16>>,
    pub sizes: Vec<(u8, u8)>,
    pub next: u8,
    pub asked: i64,
}

impl Thumbs {
    pub open spec fn wf(&self) -> bool {
        &&& self.pool@.len() == THUMB_SLOTS
        &&& forall|i: int| 0 <= i < THUMB_SLOTS ==> (#[trigger] self.pool@[i])@.len() == THUMB_PIXELS
        &&& self.sizes@.len() == THUMB_SLOTS
        &&& forall|i: int| 0 <= i < THUMB_SLOTS ==> (#[trigger] self.sizes@[i]).0 <= THUMB_SIDE && self.sizes@[i].1 <= THUMB_SIDE
    }

    pub fn new() -> (thumbs: Thumbs)
        ensures
            thumbs.wf(),
            thumbs.next == 0 && thumbs.asked == 0,
    {
        let mut pool: Vec<Vec<u16>> = Vec::new();
        let mut sizes: Vec<(u8, u8)> = Vec::new();
        let mut slot: usize = 0;
        while slot < THUMB_SLOTS
            invariant
                0 <= slot <= THUMB_SLOTS,
                pool@.len() == slot,
                sizes@.len() == slot,
                forall|j: int| 0 <= j < slot ==> (#[trigger] pool@[j])@.len() == THUMB_PIXELS,
                forall|j: int| 0 <= j < slot ==> (#[trigger] sizes@[j]) == (0u8, 0u8),
            decreases THUMB_SLOTS - slot,
        {
            let mut pixels: Vec<u16> = Vec::new();
            let mut p: usize = 0;
            while p < THUMB_PIXELS
                invariant
                    0 <= p <= THUMB_PIXELS,
                    pixels@.len() == p,
                decreases THUMB_PIXELS - p,
            {
                pixels.push(0);
                p = p + 1;
            }
            pool.push(pixels);
            sizes.push((0, 0));
            slot = slot + 1;
        }
        Thumbs { pool, sizes, next: 0, asked: 0 }
    }
}

// ---- undo and the clipboard

/// What the last edit of the message box was, to group typing into one undo step.
#[derive(Clone, Copy, PartialEq, Eq, Structural, Debug)]
pub enum Change {
    /// Typing letters in a row: one step until something else happens or a space ends the word.
    Type,
    Other,
}

/// The message box at one moment: what Ctrl+Z and Ctrl+Shift+Z go between.
pub struct Snap {
    pub text: Vec<char>,
    pub cursor: usize,
    pub anchor: usize,
}

pub open spec fn snap_wf(s: Snap) -> bool {
    &&& byte_len(s.text@) <= MESSAGE_CAPACITY
    &&& s.text@.len() <= MESSAGE_CAPACITY
    &&& s.cursor <= s.text@.len()
    &&& s.anchor <= s.text@.len()
}

/// Earlier states of the message being typed, oldest first, for Ctrl+Z; and the ones undone, for
/// Ctrl+Shift+Z.
pub struct History {
    pub undo: Vec<Snap>,
    pub redo: Vec<Snap>,
    pub last_change: Change,
}

impl History {
    pub open spec fn wf(&self) -> bool {
        &&& self.undo@.len() <= UNDO_DEPTH
        &&& self.redo@.len() <= UNDO_DEPTH
        &&& forall|i: int| 0 <= i < self.undo@.len() ==> snap_wf(#[trigger] self.undo@[i])
        &&& forall|i: int| 0 <= i < self.redo@.len() ==> snap_wf(#[trigger] self.redo@[i])
    }
}

/// Text copied with Ctrl+C or Ctrl+X, waiting for the window to put it on the clipboard; and whether
/// the window should ask the clipboard for its text (Ctrl+V).
pub struct Clipboard {
    pub text: String,
    pub pending: bool,
    pub paste_wanted: bool,
}

} // verus!
