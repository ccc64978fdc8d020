//! What the window program decides for each event of its window: which action a click leads to,
//! how clicks close together count, where the wheel scrolls, what the pointer hovers and which
//! cursor it shows, and how long to wait for the next event. The window itself stays outside.

use vstd::prelude::*;
use crate::chat::Chat;
use crate::chat_keys::{Key, is_editing};
use crate::items::{Focus, Tab, CallPhase};
use crate::layout::sidebar_width;
use crate::view::{Hit, FindHit, CHIP, CONVERSATION_MENU_W, menu_slot, chats_menu_width, INPUT_TEXT, PREVIEW, can_lay_out, viewable, hit_test, hit_of, dialog_hit, dialog_button, message_at, hover_at,
    hover_button_menu_at, message_caret_at, search_caret_at, find_caret_at, over_info, in_picker, conversation_menu_entry_at,
    chats_menu_entry_at, caret_under, button_center, bubble_under, side_of, forward_hit};
use crate::layout::RAIL_W;
use crate::screen::{Marks, Screen, Clipboard, CallScreen, Dialog};
use crate::chat_messages::layout_of;
use crate::chat_dialogs::forward_order;
use crate::chat::{dialpad_opened, dialpad_closed, key_dialed, call_answered, hung_up, favorite_called};
use crate::chat_lists::{tab_set, new_chat_opened, new_chat_closed, starred_opened, starred_closed, unread_only_set, list_scrolled,
    panel_scrolled};
use crate::chat_dialogs::{silence_toggled, clear_asked, remove_asked, delete_asked};
use crate::chat_open::{picker_toggled, reaction_picker_opened, contact_picked, self_picked, number_picked, selected,
    reply_cancelled, reply_started, picker_scrolled, conversation_closed};
use crate::chat_forward::{reaction_picked, emoji_inserted, starred_message_opened, jumped_to, forward_opened, forwarded, resized,
    forward_scrolled, dialog_answered};
use crate::chat_keys::{field_clicked, find_clicked, find_closed, find_opened, find_stepped, draft_sent, edit_started, key_pressed, pasted,
    field_dragged, find_dragged};
use crate::chat_actions::{reacted, star_toggled, message_copied};
use crate::chat_flow::{scrolled_to_bottom, view_scrolled, all_marked_read};

verus! {

/// Clicks within this many milliseconds of the one before count as a double or triple click.
pub const MULTI_CLICK_MS: i64 = 450;

/// How far apart, in pixels either way, clicks that count together may be.
pub const MULTI_CLICK_PX: i32 = 4;

/// How often the caret blinks, in milliseconds.
pub const CARET_BLINK_MS: i32 = 530;

/// The reaction in place `slot` of the six of the pop-up over a message.
pub open spec fn quick_reaction(slot: int) -> char {
    if slot == 0 { '👍' } else if slot == 1 { '❤' } else if slot == 2 { '😂' } else if slot == 3 { '😮' } else if slot == 4 { '😢' } else { '🙏' }
}

/// The reaction in place `slot` of the pop-up over a message.
pub fn quick_reaction_at(slot: usize) -> (emoji: char)
    requires
        slot < 6,
    ensures
        emoji == quick_reaction(slot as int),
{
    if slot == 0 { '👍' } else if slot == 1 { '❤' } else if slot == 2 { '😂' } else if slot == 3 { '😮' } else if slot == 4 { '😢' } else { '🙏' }
}

/// The text box a press started in, which a drag keeps selecting in.
#[derive(Clone, Copy, PartialEq, Eq, Structural, Debug)]
pub enum Drag {
    Message,
    Search,
    Find,
}

/// The pointer's shape.
#[derive(Clone, Copy, PartialEq, Eq, Structural, Debug)]
pub enum Cursor {
    Arrow,
    Text,
    Pointer,
}

/// What the window reports.
pub enum WindowEvent {
    Click { x: i32, y: i32 },
    RightClick { x: i32, y: i32 },
    Motion { x: i32, y: i32, pressed: bool },
    Scroll { x: i32, y: i32, down: bool },
    Key(Key),
    Focus(bool),
    Paste(String),
    Resize(i32, i32),
}

/// What the window has to do after an event.
pub enum WindowAction {
    /// Put this text on the clipboard.
    Copy(String),
    /// Ask for what is on the clipboard (it comes back as a `Paste` event).
    RequestPaste,
    /// Show this pointer shape.
    ShowCursor(Cursor),
}

/// What a click on the screen of the chats leads to.
#[derive(Clone, Copy, PartialEq, Eq, Structural, Debug)]
pub enum Act {
    /// The emoji picker chose the reaction to the message it was opened for.
    ReactWithPicker(usize),
    /// The emoji picker typed an emoji into the draft.
    InsertEmoji(usize),
    /// A click on the picker outside its emoji: nothing.
    Stay,
    TogglePicker,
    CloseDialpad,
    CloseStarred,
    CloseNewChat,
    /// Any other target: the picker closes and the target does what it does.
    Target(Hit),
}

/// The pointer's state: the last click (when, where, how many in a row), the text box a drag
/// selects in, and the window's size.
pub struct Pointer {
    pub at: i64,
    pub x: i32,
    pub y: i32,
    pub clicks: u8,
    pub drag: Option<Drag>,
    pub width: i32,
    pub height: i32,
}

impl Pointer {
    pub open spec fn wf(&self) -> bool {
        0 < self.width <= 0x100_0000 && 0 < self.height <= 0x100_0000
    }

    pub fn new(width: i32, height: i32) -> (pointer: Self)
        requires
            0 < width <= 0x100_0000,
            0 < height <= 0x100_0000,
        ensures
            pointer.wf(),
            pointer == (Pointer { at: i64::MIN, x: 0, y: 0, clicks: 0, drag: None, width, height }),
    {
        Pointer { at: i64::MIN, x: 0, y: 0, clicks: 0, drag: None, width, height }
    }
}

/// How many clicks in a row a click at (`x`, `y`) at time `now` makes: one more than the last
/// (at most three) when it came within 450 ms and 4 px of it, else one.
pub open spec fn click_count(p: Pointer, now: int, x: int, y: int) -> u8 {
    if now - p.at <= MULTI_CLICK_MS && -MULTI_CLICK_PX <= x - p.x <= MULTI_CLICK_PX && -MULTI_CLICK_PX <= y - p.y <= MULTI_CLICK_PX {
        if p.clicks >= 2 { 3 } else { (p.clicks + 1) as u8 }
    } else {
        1
    }
}

/// The pointer's shape over `hit`: a text cursor over the text boxes, an arrow over nothing in
/// particular, a hand over anything that does something.
pub open spec fn cursor_for(hit: Hit) -> Cursor {
    match hit {
        Hit::SearchBox(_) | Hit::MessageBox(_) | Hit::Find(FindHit::Box(_)) => Cursor::Text,
        Hit::Nothing | Hit::Conversation | Hit::InfoPanel | Hit::EmojiPanel | Hit::ForwardOutside => Cursor::Arrow,
        _ => Cursor::Pointer,
    }
}

/// What a click on `hit` leads to, with the picker reacting to a message or not, the dial pad
/// open or not, and the favourites open or not.
pub open spec fn act_for(hit: Hit, reacting: bool, dialpad: bool, starred: bool) -> Act {
    match hit {
        Hit::Emoji(index) => if reacting { Act::ReactWithPicker(index) } else { Act::InsertEmoji(index) },
        Hit::EmojiPanel => Act::Stay,
        Hit::EmojiButton => Act::TogglePicker,
        Hit::Back => if dialpad { Act::CloseDialpad } else if starred { Act::CloseStarred } else { Act::CloseNewChat },
        _ => Act::Target(hit),
    }
}

/// How long to wait for the next event: the caret's blink while a text box has it, else a second
/// while a call's clock runs, else until something happens (-1).
pub open spec fn wait_for(chat: Chat, on_chat: bool) -> i32 {
    if on_chat && is_editing(chat) && chat.screen.window_focused {
        CARET_BLINK_MS
    } else if chat.call.phase == CallPhase::Active || chat.call.phase == CallPhase::Ended {
        1000
    } else {
        -1i32
    }
}

/// Whether the font offers what the screen of the chats needs to find what lies under the pointer.
pub open spec fn fonts_ready(chat: &Chat) -> bool {
    can_lay_out(&chat.font) && chat.font.has_style(INPUT_TEXT)
}

/// How long to wait for the next event.
pub fn wait_ms(chat: &Chat, on_chat: bool) -> (ms: i32)
    ensures
        ms == wait_for(*chat, on_chat),
{
    if on_chat && chat.editing() && chat.screen.window_focused {
        CARET_BLINK_MS
    } else if chat.call_ticking() {
        1000
    } else {
        -1
    }
}

/// The chat after a wait for an event that ran out at `now` (seconds since 1970): a call's clock
/// ticks while it runs (the `Ended` screen closes when its time is up), and the caret blinks while
/// a text box of the screen of the chats has it in a focused window.
pub open spec fn timed_out(chat: Chat, on_chat: bool, now: int) -> Chat {
    let ticked = if chat.call.phase == CallPhase::Ended && now >= chat.call.until {
        Chat { call: CallScreen { phase: CallPhase::Idle, ..chat.call }, ..chat }
    } else {
        chat
    };
    if on_chat && is_editing(chat) && chat.screen.window_focused {
        Chat { screen: Screen { caret_on: !chat.screen.caret_on, ..ticked.screen }, ..ticked }
    } else {
        ticked
    }
}

/// The wait for the next event ran out at `now`.
pub fn on_timeout(chat: &mut Chat, on_chat: bool, now: i64)
    requires
        old(chat).wf(),
    ensures
        final(chat).wf(),
        *final(chat) == timed_out(*old(chat), on_chat, now as int),
{
    let blinking = on_chat && chat.editing() && chat.screen.window_focused;
    if chat.call_ticking() {
        chat.tick_at(now);
    }
    if blinking {
        chat.screen.caret_on = !chat.screen.caret_on;
    }
}

/// The pointer's shape over `hit`.
pub fn cursor_over(hit: Hit) -> (cursor: Cursor)
    ensures
        cursor == cursor_for(hit),
{
    match hit {
        Hit::SearchBox(_) | Hit::MessageBox(_) | Hit::Find(FindHit::Box(_)) => Cursor::Text,
        Hit::Nothing | Hit::Conversation | Hit::InfoPanel | Hit::EmojiPanel | Hit::ForwardOutside => Cursor::Arrow,
        _ => Cursor::Pointer,
    }
}

/// What a click on `hit` leads to.
pub fn act_of(hit: Hit, reacting: bool, dialpad: bool, starred: bool) -> (act: Act)
    ensures
        act == act_for(hit, reacting, dialpad, starred),
{
    match hit {
        Hit::Emoji(index) => if reacting { Act::ReactWithPicker(index) } else { Act::InsertEmoji(index) },
        Hit::EmojiPanel => Act::Stay,
        Hit::EmojiButton => Act::TogglePicker,
        Hit::Back => if dialpad { Act::CloseDialpad } else if starred { Act::CloseStarred } else { Act::CloseNewChat },
        _ => Act::Target(hit),
    }
}

/// How many clicks in a row a click makes.
pub fn count_click(pointer: &Pointer, now_ms: i64, x: i32, y: i32) -> (clicks: u8)
    ensures
        clicks == click_count(*pointer, now_ms as int, x as int, y as int),
{
    let close_in_time = (now_ms as i128) - (pointer.at as i128) <= MULTI_CLICK_MS as i128;
    let dx = (x as i64) - (pointer.x as i64);
    let dy = (y as i64) - (pointer.y as i64);
    if close_in_time && -4 <= dx && dx <= 4 && -4 <= dy && dy <= 4 {
        if pointer.clicks >= 2 { 3 } else { pointer.clicks + 1 }
    } else {
        1
    }
}

/// The chat with the emoji picker closed.
pub open spec fn without_picker(chat: Chat) -> Chat {
    Chat { marks: Marks { picker_open: false, picker_reaction: None, ..chat.marks }, ..chat }
}

/// The chat with the pop-up over a message closed.
pub open spec fn menu_closed(chat: Chat) -> Chat {
    Chat { marks: Marks { message_menu: None, ..chat.marks }, ..chat }
}

/// The chat once the window has taken the text to put on the clipboard.
pub open spec fn copied(chat: Chat) -> Chat {
    Chat { clipboard: Clipboard { pending: false, ..chat.clipboard }, ..chat }
}

/// The character of the search box under `x` (the box starts after the magnifier, or nearer the
/// edge while the keypad is open).
pub open spec fn search_caret(chat: Chat, x: int, width: int) -> int {
    caret_under(&chat.font, chat.boxes.search@.text, chat.boxes.search@.cursor, PREVIEW,
        side_of(width) - RAIL_W - 40 - 80, x - (RAIL_W + 21 + if !chat.call.dialpad_open { 48int } else { 14 }))
}

/// The character of the message box under `x`.
pub open spec fn message_caret(chat: Chat, x: int, width: int) -> int {
    caret_under(&chat.font, chat.boxes.draft@.text, chat.boxes.draft@.cursor, INPUT_TEXT,
        width - side_of(width) - 24 - 91 - 64, x - (side_of(width) + 12 + 91))
}

/// The character of the find box under `x`.
pub open spec fn find_caret(chat: Chat, x: int, width: int) -> int {
    caret_under(&chat.font, chat.finder.field@.text, chat.finder.field@.cursor, PREVIEW,
        width - side_of(width) - 246 - 72, x - (side_of(width) + 16 + 48))
}

/// Where the pop-up over message `index` opens from its hover button.
pub open spec fn menu_spot(chat: Chat, index: int, width: int) -> (i32, i32) {
    match button_center(&chat, layout_of(&chat).0, index, width) {
        Some(c) => ((c.0 - 30) as i32, (c.1 + 18) as i32),
        None => (0i32, 0i32),
    }
}

/// What an entry of the pop-up over a message does to the message it is over: the pop-up closes
/// first; with no pop-up open nothing happens.
pub open spec fn on_menu_message(prior: Chat, next: Chat, hit: Hit) -> bool {
    match prior.marks.message_menu {
        None => next == prior,
        Some(m) => {
            let taken = menu_closed(prior);
            let index = m.0;
            match hit {
                Hit::Reaction(slot) => if slot < 6 { reacted(taken, next, index as int, quick_reaction(slot as int)) } else { next == taken },
                Hit::MenuReply => reply_started(taken, next, index),
                Hit::ReactionMore => reaction_picker_opened(taken, next, index),
                Hit::MenuForward => forward_opened(taken, next, index),
                Hit::MenuStar => star_toggled(taken, next, index),
                Hit::MenuEdit => edit_started(taken, next, index),
                Hit::MenuDelete => delete_asked(taken, next, index),
                Hit::MenuCopy => message_copied(taken, next, index),
                _ => next == taken,
            }
        },
    }
}

/// What a click on target `hit` of the screen of the chats does to the chat (the picker already
/// closed), before the pop-up over a message closes: `clicks` in a row, in a window `width` wide.
pub open spec fn target_done(prior: Chat, next: Chat, hit: Hit, clicks: u8, width: int) -> bool {
    match hit {
        Hit::Tab(tab) => tab_set(prior, next, tab),
        Hit::NewChat => new_chat_opened(prior, next),
        Hit::Menu => next == (Chat { screen: Screen { menu_open: true, ..prior.screen }, ..prior }),
        Hit::ChatMenu => next == (Chat { screen: Screen { chat_menu_open: true, ..prior.screen }, ..prior }),
        Hit::HeaderInfo => next == (Chat { screen: Screen { info_open: true, ..prior.screen }, ..prior }),
        Hit::InfoClose => next == (Chat { screen: Screen { info_open: false, ..prior.screen }, ..prior }),
        Hit::InfoRow(row) => if row == 0 { starred_opened(prior, next) } else if row == 1 { silence_toggled(prior, next) }
            else if row == 2 { clear_asked(prior, next) } else { remove_asked(prior, next) },
        Hit::OpenDialpad => dialpad_opened(prior, next),
        Hit::Key(key) => key_dialed(prior, next, key),
        Hit::Answer => call_answered(prior, next),
        Hit::Decline | Hit::HangUp => hung_up(prior, next),
        Hit::Mute => next == (Chat { call: CallScreen { muted: !prior.call.muted, ..prior.call }, ..prior }),
        Hit::Call(index) => if index < prior.lists.favorites@.len() { favorite_called(prior, next, index) } else { next == prior },
        Hit::Starred(nth) => starred_message_opened(prior, next, nth),
        Hit::Contact(index) => if index < prior.lists.contacts@.len() { contact_picked(prior, next, index) } else { next == prior },
        Hit::SelfChat => self_picked(prior, next),
        Hit::NumberChat => number_picked(prior, next),
        Hit::Row(index) => if index < crate::items::MAX_CHATS { selected(prior, next, index) } else { next == prior },
        Hit::Chip(index) => unread_only_set(prior, next, index == 1),
        Hit::SearchBox(x) => field_clicked(Chat { screen: Screen { focus: Focus::Search, ..prior.screen }, ..prior }, next, false,
            search_caret(prior, x as int, width) as usize, clicks),
        Hit::MessageBox(x) => field_clicked(Chat { screen: Screen { focus: Focus::Message, ..prior.screen }, ..prior }, next, true,
            message_caret(prior, x as int, width) as usize, clicks),
        Hit::FindOpen => find_opened(prior, next),
        Hit::ScrollBottom => scrolled_to_bottom(prior, next),
        Hit::ReplyClose => reply_cancelled(prior, next),
        Hit::Quote(index) => jumped_to(prior, next, index),
        Hit::Reaction(_) | Hit::MenuReply | Hit::ReactionMore | Hit::MenuForward | Hit::MenuStar | Hit::MenuEdit | Hit::MenuDelete
            | Hit::MenuCopy => on_menu_message(prior, next, hit),
        Hit::HoverButton(index) => if index < prior.store.messages@.len() {
                next == (Chat { marks: Marks { message_menu: Some((index, menu_spot(prior, index as int, width).0,
                    menu_spot(prior, index as int, width).1)), ..prior.marks }, ..prior })
            } else {
                next == prior
            },
        Hit::ForwardTo(target) => forwarded(prior, next, target),
        Hit::ForwardOutside => next == (Chat { marks: Marks { forward_open: false, ..prior.marks }, ..prior }),
        Hit::Find(FindHit::Box(x)) => find_clicked(prior, next, find_caret(prior, x as int, width) as usize, clicks),
        Hit::Find(FindHit::Up) => find_stepped(prior, next, false),
        Hit::Find(FindHit::Down) => find_stepped(prior, next, true),
        Hit::Find(FindHit::Close) => find_closed(prior, next),
        Hit::Conversation => next == (Chat { screen: Screen { focus: Focus::Message, ..prior.screen }, ..prior }),
        Hit::Send => exists|now: int| #[trigger] draft_sent(prior, next, now),
        _ => next == prior,
    }
}

/// What `act` does to the chat, before the pop-up over a message closes.
pub open spec fn act_done(prior: Chat, next: Chat, act: Act, clicks: u8, width: int) -> bool {
    match act {
        Act::ReactWithPicker(index) => if index < 0x1000_0000 { reaction_picked(prior, next, index) } else { next == prior },
        Act::InsertEmoji(index) => if index < 0x1000_0000 { emoji_inserted(prior, next, index) } else { next == prior },
        Act::Stay => next == prior,
        Act::TogglePicker => picker_toggled(prior, next),
        Act::CloseDialpad => dialpad_closed(without_picker(prior), next),
        Act::CloseStarred => starred_closed(without_picker(prior), next),
        Act::CloseNewChat => new_chat_closed(without_picker(prior), next),
        Act::Target(hit) => target_done(without_picker(prior), next, hit, clicks, width),
    }
}

/// Whether `act` leaves the pop-up over a message open: only the hover button of a message opens it.
pub open spec fn keeps_menu(prior: Chat, act: Act) -> bool {
    match act {
        Act::Target(Hit::HoverButton(index)) => index < prior.store.messages@.len(),
        _ => false,
    }
}

/// What a click that leads to `act` does to the chat: `act` is done, the pop-up over a message
/// closes unless the click opened it, and the window takes any text to copy.
pub open spec fn performed(prior: Chat, next: Chat, act: Act, clicks: u8, width: int) -> bool {
    exists|done: Chat| #[trigger] act_done(prior, done, act, clicks, width)
        && next == copied(if keeps_menu(prior, act) { done } else { menu_closed(done) })
}

/// The text box a click on `hit` starts a drag in, if any.
pub open spec fn drag_after(hit: Hit, drag: Option<Drag>) -> Option<Drag> {
    match hit {
        Hit::SearchBox(_) => Some(Drag::Search),
        Hit::MessageBox(_) => Some(Drag::Message),
        Hit::Find(FindHit::Box(_)) => Some(Drag::Find),
        _ => drag,
    }
}

/// Takes the index of the message the pop-up is over, closing the pop-up.
fn take_menu(chat: &mut Chat) -> (index: Option<usize>)
    requires
        old(chat).wf(),
        old(chat).marks.message_menu matches Some(m) ==> (m.0 as int) < old(chat).store.messages@.len(),
    ensures
        final(chat).wf(),
        index matches Some(i) ==> (i as int) < final(chat).store.messages@.len(),
        index == (match old(chat).marks.message_menu { Some(m) => Some(m.0), None => None }),
        final(chat).marks.message_menu is None,
        *final(chat) == (Chat { marks: crate::screen::Marks { message_menu: None, ..old(chat).marks }, ..*old(chat) }),
{
    match chat.marks.message_menu.take() {
        Some((index, _, _)) => Some(index),
        None => None,
    }
}

/// Does what a click on target `hit` of the screen of the chats does; whether the pop-up over a
/// message stays open (it does when the click opened it).
#[verifier::rlimit(100)]
#[verifier::spinoff_prover]
fn perform(chat: &mut Chat, pointer: &mut Pointer, act: Act, clicks: u8) -> (keep_menu: bool)
    requires
        old(chat).wf(),
        old(pointer).wf(),
        fonts_ready(old(chat)),
        old(chat).marks.message_menu matches Some(m) ==> (m.0 as int) < old(chat).store.messages@.len(),
    ensures
        final(chat).wf(),
        act_done(*old(chat), *final(chat), act, clicks, old(pointer).width as int),
        keep_menu == keeps_menu(*old(chat), act),
        final(pointer).drag == (match act { Act::Target(hit) => drag_after(hit, old(pointer).drag), _ => old(pointer).drag }),
        final(pointer).width == old(pointer).width && final(pointer).height == old(pointer).height,
        final(pointer).at == old(pointer).at && final(pointer).x == old(pointer).x && final(pointer).y == old(pointer).y,
        final(pointer).clicks == old(pointer).clicks,
{
    let width = pointer.width;
    match act {
        Act::ReactWithPicker(index) => {
            if index < 0x1000_0000 {
                chat.react_with_picker(index);
            }
            false
        },
        Act::InsertEmoji(index) => {
            if index < 0x1000_0000 {
                chat.insert_emoji(index);
            }
            false
        },
        Act::Stay => false,
        Act::TogglePicker => {
            chat.toggle_picker();
            false
        },
        Act::CloseDialpad => {
            chat.close_picker();
            chat.close_dialpad();
            false
        },
        Act::CloseStarred => {
            chat.close_picker();
            chat.close_starred();
            false
        },
        Act::CloseNewChat => {
            chat.close_picker();
            chat.close_new_chat();
            false
        },
        Act::Target(hit) => {
            chat.close_picker();
            perform_target(chat, pointer, hit, clicks, width)
        },
    }
}

/// Whether `hit` is on a text box (the search, message or find box).
spec fn box_target(hit: Hit) -> bool {
    match hit {
        Hit::SearchBox(_) | Hit::MessageBox(_) | Hit::Find(FindHit::Box(_)) => true,
        _ => false,
    }
}

/// Whether `hit` is on the rail, the lists, the contact's panel or the forward panel.
spec fn list_target(hit: Hit) -> bool {
    match hit {
        Hit::Tab(_) | Hit::NewChat | Hit::Menu | Hit::ChatMenu | Hit::HeaderInfo | Hit::InfoClose | Hit::InfoRow(_) | Hit::Starred(_)
        | Hit::Contact(_) | Hit::SelfChat | Hit::NumberChat | Hit::Row(_) | Hit::Chip(_) | Hit::ForwardTo(_) | Hit::ForwardOutside => true,
        _ => false,
    }
}

/// Whether `hit` is on the calls: the keypad and the call screen.
spec fn call_target(hit: Hit) -> bool {
    match hit {
        Hit::OpenDialpad | Hit::Key(_) | Hit::Answer | Hit::Decline | Hit::HangUp | Hit::Mute | Hit::Call(_) => true,
        _ => false,
    }
}

/// Whether `hit` is on the pop-up over a message or the hover button that opens it.
spec fn menu_target(hit: Hit) -> bool {
    match hit {
        Hit::Reaction(_) | Hit::MenuReply | Hit::ReactionMore | Hit::HoverButton(_) | Hit::MenuForward | Hit::MenuStar | Hit::MenuEdit
        | Hit::MenuDelete | Hit::MenuCopy => true,
        _ => false,
    }
}

/// Whether `hit` is on none of the targets above.
spec fn view_target(hit: Hit) -> bool {
    !box_target(hit) && !list_target(hit) && !call_target(hit) && !menu_target(hit)
}

/// Does what a click on a text box (the search, message or find box) does.
#[verifier::rlimit(100)]
#[verifier::spinoff_prover]
fn perform_box(chat: &mut Chat, pointer: &mut Pointer, hit: Hit, clicks: u8, width: i32) -> (keep_menu: bool)
    requires
        old(chat).wf(),
        fonts_ready(old(chat)),
        old(chat).marks.message_menu matches Some(m) ==> (m.0 as int) < old(chat).store.messages@.len(),
        0 < width <= 0x100_0000,
        old(pointer).wf(),
        width == old(pointer).width,
        box_target(hit),
    ensures
        final(chat).wf(),
        target_done(*old(chat), *final(chat), hit, clicks, width as int),
        keep_menu == keeps_menu(*old(chat), Act::Target(hit)),
        final(pointer).drag == drag_after(hit, old(pointer).drag),
        final(pointer).width == old(pointer).width && final(pointer).height == old(pointer).height,
        final(pointer).at == old(pointer).at && final(pointer).x == old(pointer).x && final(pointer).y == old(pointer).y,
        final(pointer).clicks == old(pointer).clicks,
{
    match hit {
        Hit::SearchBox(x) => {
            chat.screen.focus = Focus::Search;
            let icon = !chat.call.dialpad_open;
            let at = search_caret_at(chat, x, width, icon);
            chat.click_field(false, at, clicks);
            pointer.drag = Some(Drag::Search);
        },
        Hit::MessageBox(x) => {
            chat.screen.focus = Focus::Message;
            let at = message_caret_at(chat, x, width);
            chat.click_field(true, at, clicks);
            pointer.drag = Some(Drag::Message);
        },
        Hit::Find(FindHit::Box(x)) => {
            let at = find_caret_at(chat, x, width);
            chat.click_find(at, clicks);
            pointer.drag = Some(Drag::Find);
        },
        _ => {},
    }
    false
}

/// Does what a click on the rail, the lists, the contact's panel or the forward panel does.
#[verifier::rlimit(100)]
#[verifier::spinoff_prover]
fn perform_list(chat: &mut Chat, hit: Hit, clicks: u8, width: i32) -> (keep_menu: bool)
    requires
        old(chat).wf(),
        fonts_ready(old(chat)),
        old(chat).marks.message_menu matches Some(m) ==> (m.0 as int) < old(chat).store.messages@.len(),
        0 < width <= 0x100_0000,
        list_target(hit),
    ensures
        final(chat).wf(),
        target_done(*old(chat), *final(chat), hit, clicks, width as int),
        keep_menu == keeps_menu(*old(chat), Act::Target(hit)),
{
    match hit {
        Hit::Tab(tab) => chat.set_tab(tab),
        Hit::NewChat => chat.open_new_chat(),
        Hit::Menu => chat.screen.menu_open = true,
        Hit::ChatMenu => chat.screen.chat_menu_open = true,
        Hit::HeaderInfo => chat.screen.info_open = true,
        Hit::InfoClose => chat.screen.info_open = false,
        Hit::InfoRow(row) => {
            if row == 0 {
                chat.open_starred();
            } else if row == 1 {
                chat.toggle_silence();
            } else if row == 2 {
                chat.ask_clear();
            } else {
                chat.ask_remove();
            }
        },
        Hit::Starred(nth) => chat.open_starred_message(nth),
        Hit::Contact(index) => {
            if index < chat.lists.contacts.len() {
                chat.pick_contact(index);
            }
        },
        Hit::SelfChat => chat.pick_self(),
        Hit::NumberChat => chat.pick_number(),
        Hit::Row(index) => {
            if index < crate::items::MAX_CHATS {
                chat.select(index);
            }
        },
        Hit::Chip(index) => chat.set_unread_only(index == 1),
        Hit::ForwardTo(target) => chat.forward_to(target),
        Hit::ForwardOutside => chat.marks.forward_open = false,
        _ => {},
    }
    false
}

/// Does what a click on the calls: the keypad and the call screen does.
#[verifier::rlimit(100)]
#[verifier::spinoff_prover]
fn perform_call(chat: &mut Chat, hit: Hit, clicks: u8, width: i32) -> (keep_menu: bool)
    requires
        old(chat).wf(),
        fonts_ready(old(chat)),
        old(chat).marks.message_menu matches Some(m) ==> (m.0 as int) < old(chat).store.messages@.len(),
        0 < width <= 0x100_0000,
        call_target(hit),
    ensures
        final(chat).wf(),
        target_done(*old(chat), *final(chat), hit, clicks, width as int),
        keep_menu == keeps_menu(*old(chat), Act::Target(hit)),
{
    match hit {
        Hit::OpenDialpad => chat.open_dialpad(),
        Hit::Key(key) => chat.dial_key(key),
        Hit::Answer => chat.answer_call(),
        Hit::Decline | Hit::HangUp => chat.hang_up(),
        Hit::Mute => chat.call.muted = !chat.call.muted,
        Hit::Call(index) => {
            if index < chat.lists.favorites.len() {
                chat.call_favorite(index);
            }
        },
        _ => {},
    }
    false
}

/// Does what a click on the pop-up over a message or the hover button that opens it does.
#[verifier::rlimit(100)]
#[verifier::spinoff_prover]
fn perform_menu(chat: &mut Chat, hit: Hit, clicks: u8, width: i32) -> (keep_menu: bool)
    requires
        old(chat).wf(),
        fonts_ready(old(chat)),
        old(chat).marks.message_menu matches Some(m) ==> (m.0 as int) < old(chat).store.messages@.len(),
        0 < width <= 0x100_0000,
        menu_target(hit),
    ensures
        final(chat).wf(),
        target_done(*old(chat), *final(chat), hit, clicks, width as int),
        keep_menu == keeps_menu(*old(chat), Act::Target(hit)),
{
    match hit {
        Hit::Reaction(slot) => {
            if let Some(index) = take_menu(chat) {
                if slot < 6 {
                    chat.react(index, quick_reaction_at(slot));
                }
            }
        },
        Hit::MenuReply => {
            if let Some(index) = take_menu(chat) {
                chat.start_reply(index);
            }
        },
        Hit::ReactionMore => {
            if let Some(index) = take_menu(chat) {
                chat.open_reaction_picker(index);
            }
        },
        Hit::HoverButton(index) => {
            if index < chat.store.messages.len() {
                let (mx, my) = hover_button_menu_at(chat, index, width);
                chat.marks.message_menu = Some((index, mx, my));
                return true;
            }
        },
        Hit::MenuForward => {
            if let Some(index) = take_menu(chat) {
                chat.open_forward(index);
            }
        },
        Hit::MenuStar => {
            if let Some(index) = take_menu(chat) {
                chat.toggle_star(index);
            }
        },
        Hit::MenuEdit => {
            if let Some(index) = take_menu(chat) {
                chat.start_edit(index);
            }
        },
        Hit::MenuDelete => {
            if let Some(index) = take_menu(chat) {
                chat.ask_delete(index);
            }
        },
        Hit::MenuCopy => {
            if let Some(index) = take_menu(chat) {
                chat.copy_message(index);
            }
        },
        _ => {},
    }
    false
}

/// Does what a click on the conversation, the find bar or nothing in particular does.
#[verifier::rlimit(100)]
#[verifier::spinoff_prover]
fn perform_view(chat: &mut Chat, hit: Hit, clicks: u8, width: i32) -> (keep_menu: bool)
    requires
        old(chat).wf(),
        fonts_ready(old(chat)),
        old(chat).marks.message_menu matches Some(m) ==> (m.0 as int) < old(chat).store.messages@.len(),
        0 < width <= 0x100_0000,
        view_target(hit),
    ensures
        final(chat).wf(),
        target_done(*old(chat), *final(chat), hit, clicks, width as int),
        keep_menu == keeps_menu(*old(chat), Act::Target(hit)),
{
    match hit {
        Hit::FindOpen => chat.open_find(),
        Hit::ScrollBottom => chat.scroll_to_bottom(),
        Hit::ReplyClose => chat.cancel_reply(),
        Hit::Quote(index) => chat.jump_to_message(index),
        Hit::Find(FindHit::Up) => chat.find_step(false),
        Hit::Find(FindHit::Down) => chat.find_step(true),
        Hit::Find(FindHit::Close) => chat.close_find(),
        Hit::Conversation => chat.screen.focus = Focus::Message,
        Hit::Send => chat.send(),
        _ => {},
    }
    false
}

/// Does what a click on `hit` does, once the picker is closed.
fn perform_target(chat: &mut Chat, pointer: &mut Pointer, hit: Hit, clicks: u8, width: i32) -> (keep_menu: bool)
    requires
        old(chat).wf(),
        old(pointer).wf(),
        width == old(pointer).width,
        fonts_ready(old(chat)),
        old(chat).marks.message_menu matches Some(m) ==> (m.0 as int) < old(chat).store.messages@.len(),
    ensures
        final(chat).wf(),
        target_done(*old(chat), *final(chat), hit, clicks, width as int),
        keep_menu == keeps_menu(*old(chat), Act::Target(hit)),
        final(pointer).drag == drag_after(hit, old(pointer).drag),
        final(pointer).width == old(pointer).width && final(pointer).height == old(pointer).height,
        final(pointer).at == old(pointer).at && final(pointer).x == old(pointer).x && final(pointer).y == old(pointer).y,
        final(pointer).clicks == old(pointer).clicks,
{
    match hit {
        Hit::SearchBox(_) | Hit::MessageBox(_) | Hit::Find(FindHit::Box(_)) => perform_box(chat, pointer, hit, clicks, width),
        Hit::Tab(_) | Hit::NewChat | Hit::Menu | Hit::ChatMenu | Hit::HeaderInfo | Hit::InfoClose | Hit::InfoRow(_) | Hit::Starred(_)
        | Hit::Contact(_) | Hit::SelfChat | Hit::NumberChat | Hit::Row(_) | Hit::Chip(_) | Hit::ForwardTo(_) | Hit::ForwardOutside
            => perform_list(chat, hit, clicks, width),
        Hit::OpenDialpad | Hit::Key(_) | Hit::Answer | Hit::Decline | Hit::HangUp | Hit::Mute | Hit::Call(_)
            => perform_call(chat, hit, clicks, width),
        Hit::Reaction(_) | Hit::MenuReply | Hit::ReactionMore | Hit::HoverButton(_) | Hit::MenuForward | Hit::MenuStar | Hit::MenuEdit
        | Hit::MenuDelete | Hit::MenuCopy => perform_menu(chat, hit, clicks, width),
        _ => perform_view(chat, hit, clicks, width),
    }
}


/// Where the wheel scrolls.
#[derive(Clone, Copy, PartialEq, Eq, Structural, Debug)]
pub enum ScrollTo {
    Forward,
    Picker,
    List,
    Panel,
    Conversation,
}

/// Where the wheel scrolls with the pointer at (`x`, `y`): the forward panel while it is open, the
/// picker under the pointer, the conversation list or the panel that replaces it over the sidebar,
/// else the conversation.
pub open spec fn scroll_to(chat: Chat, x: int, y: int, width: int, height: int) -> ScrollTo {
    if chat.marks.forward_open {
        ScrollTo::Forward
    } else if chat.marks.picker_open && crate::view::inside(crate::view::picker_area(crate::view::side_of(width), height), x, y) {
        ScrollTo::Picker
    } else if x < crate::view::side_of(width) {
        if chat.screen.tab == Tab::Chats && !chat.screen.new_chat && !chat.screen.starred_open { ScrollTo::List } else { ScrollTo::Panel }
    } else {
        ScrollTo::Conversation
    }
}

/// What a notch of the wheel (`notches` is one or minus one) does where it scrolls.
pub open spec fn wheel_scrolled(prior: Chat, next: Chat, to: ScrollTo, notches: i32) -> bool {
    match to {
        ScrollTo::Forward => forward_scrolled(prior, next, notches),
        ScrollTo::Picker => picker_scrolled(prior, next, notches),
        ScrollTo::List => list_scrolled(prior, next, notches),
        ScrollTo::Panel => panel_scrolled(prior, next, notches),
        ScrollTo::Conversation => view_scrolled(prior, next, notches),
    }
}

/// The chat as a click finds it: no message flashing, and no pop-up over a message that is gone.
pub open spec fn click_ready(chat: Chat) -> Chat {
    Chat { marks: crate::screen::Marks {
        flash: None,
        message_menu: match chat.marks.message_menu {
            Some(m) => if (m.0 as int) < chat.store.messages@.len() { Some(m) } else { None },
            None => None,
        },
        ..chat.marks }, ..chat }
}

/// Whether `hit` is what lies under a click at (`x`, `y`): while the forward panel is open, what
/// the panel shows there for the conversations in its order; else `hit_of`.
pub open spec fn under_click(chat: Chat, hit: Hit, x: int, y: int, width: int, height: int) -> bool {
    if chat.marks.forward_open {
        exists|targets: Seq<u8>| #[trigger] forward_order(chat.store.conversations@, targets)
            && hit == forward_hit(x, y, width, height, chat.scroll.forward as int, targets)
    } else {
        hit == hit_of(&chat, x, y, width, height)
    }
}

/// The pop-up a right click at (`x`, `y`) opens: over the message under it, in the conversation
/// shown (not over the contact's panel); else none.
pub open spec fn menu_at(chat: Chat, x: i32, y: i32, width: int) -> Option<(usize, i32, i32)> {
    if chat.screen.open && chat.screen.tab == Tab::Chats && x >= side_of(width)
        && !(chat.screen.info_open && x >= width - crate::view::INFO_W) {
        match bubble_under(&chat, layout_of(&chat).0, x as int, y as int, width) {
            Some(index) => Some((index, x, y)),
            None => None,
        }
    } else {
        None
    }
}

/// What an event led to: what the window has to do, and for a click on the screen of the chats,
/// what it hit and what that led to; for the wheel, where it scrolled.
pub struct Handled {
    pub actions: Vec<WindowAction>,
    pub hit: Option<Hit>,
    pub act: Option<Act>,
    pub scroll: Option<ScrollTo>,
}

/// Hands the clipboard's pending text to the window.
fn copy_actions(chat: &mut Chat, actions: &mut Vec<WindowAction>)
    requires
        old(chat).wf(),
    ensures
        final(chat).wf(),
        *final(chat) == copied(*old(chat)),
        old(chat).clipboard.pending ==> final(actions)@.len() == old(actions)@.len() + 1
            && final(actions)@.take(old(actions)@.len() as int) == old(actions)@
            && (final(actions)@.last() matches WindowAction::Copy(t) && t@ == old(chat).clipboard.text@),
        !old(chat).clipboard.pending ==> final(actions)@ == old(actions)@,
{
    let ghost before = actions@;
    if let Some(text) = chat.pending_copy() {
        actions.push(WindowAction::Copy(text));
        assert(actions@.take(before.len() as int) =~= before);
    }
}

/// What a click at (`x`, `y`) at `now_ms` does on the screen of the chats with no message box or
/// menu open: it counts with the clicks before it, and with the fonts ready, it finds what lies
/// under it, what that leads to, and does it.
pub open spec fn chats_clicked(prior: Chat, next: Chat, p0: Pointer, p1: Pointer, x: i32, y: i32, now_ms: i64, hit: Hit, act: Act) -> bool {
    let ready = click_ready(prior);
    let clicks = click_count(p0, now_ms as int, x as int, y as int);
    let width = p0.width as int;
    &&& p1.clicks == clicks && p1.at == now_ms && p1.x == x && p1.y == y && p1.width == p0.width && p1.height == p0.height
    &&& fonts_ready(&prior) ==> {
        &&& under_click(ready, hit, x as int, y as int, width, p0.height as int)
        &&& act == act_for(hit, ready.marks.picker_reaction is Some, ready.call.dialpad_open, ready.screen.starred_open)
        &&& performed(ready, next, act, clicks, width)
        &&& p1.drag == (match act { Act::Target(h) => drag_after(h, None), _ => None })
    }
    &&& !fonts_ready(&prior) ==> hit == Hit::Nothing && next == copied(ready)
}

/// What a click on button `button` of the message box does: the main button answers a question
/// (or just closes the box when it asks none), the other one answers no; off the buttons, nothing.
pub open spec fn dialog_clicked(prior: Chat, next: Chat, button: Option<bool>) -> bool {
    match button {
        Some(true) => if prior.dialog.asks() { dialog_answered(prior, next, true) }
            else { next == (Chat { dialog: Dialog { open: false, ..prior.dialog }, ..prior }) },
        Some(false) => dialog_answered(prior, next, false),
        None => next == prior,
    }
}

/// The entry of the conversation's menu under (`x`, `y`).
pub open spec fn chat_menu_entry(x: int, y: int, width: int) -> Option<usize> {
    if x < width - CONVERSATION_MENU_W - 12 || x >= width - 12 { None } else { menu_slot(y, 5) }
}

/// The entry of the menu of the chats under (`x`, `y`); it has entries on the chats tab only.
pub open spec fn chats_menu_entry(chat: Chat, x: int, y: int, width: int) -> Option<usize> {
    if chat.screen.tab != Tab::Chats || x < side_of(width) - 107 || x >= side_of(width) - 107 + chats_menu_width(&chat.font) {
        None
    } else {
        menu_slot(y, 5)
    }
}

/// What entry `entry` of the conversation's menu does, before the menu closes.
pub open spec fn chat_menu_done(prior: Chat, next: Chat, entry: Option<usize>) -> bool {
    match entry {
        Some(0) => next == (Chat { screen: Screen { info_open: true, ..prior.screen }, ..prior }),
        Some(1) => silence_toggled(prior, next),
        Some(2) => conversation_closed(prior, next),
        Some(3) => clear_asked(prior, next),
        Some(4) => remove_asked(prior, next),
        _ => next == prior,
    }
}

/// What entry `entry` of the menu of the chats does, before the menu closes.
pub open spec fn chats_menu_done(prior: Chat, next: Chat, entry: Option<usize>) -> bool {
    match entry {
        Some(2) => starred_opened(prior, next),
        Some(4) => all_marked_read(prior, next),
        _ => next == prior,
    }
}

/// What a click does on the screen of the chats: with the message box up, what its button does
/// (with the fonts ready); with a menu open, what its entry does, and the menu closes; else what
/// `chats_clicked` says, with what it hit and what that led to. Off the screen of the chats nothing
/// changes.
pub open spec fn click_handled(prior: Chat, next: Chat, p0: Pointer, p1: Pointer, x: i32, y: i32, now_ms: i64, on_chat: bool,
    hit: Option<Hit>, act: Option<Act>) -> bool {
    let width = p0.width as int;
    let general = on_chat && !prior.dialog.open && !prior.screen.chat_menu_open && !prior.screen.menu_open;
    &&& general ==> (hit matches Some(h) && act matches Some(a) && chats_clicked(prior, next, p0, p1, x, y, now_ms, h, a))
    &&& !general ==> hit is None && act is None
    &&& !on_chat ==> next == prior
    &&& (on_chat && prior.dialog.open) ==> (if fonts_ready(&prior) {
            dialog_clicked(prior, next, crate::view::dialog_button(&prior, x as int, y as int, width, p0.height as int))
        } else {
            next == prior
        })
    &&& (on_chat && !prior.dialog.open && prior.screen.chat_menu_open) ==> exists|done: Chat|
        #[trigger] chat_menu_done(prior, done, chat_menu_entry(x as int, y as int, width))
        && next == (Chat { screen: Screen { chat_menu_open: false, ..done.screen }, ..done })
    &&& (on_chat && !prior.dialog.open && !prior.screen.chat_menu_open && prior.screen.menu_open) ==> exists|done: Chat|
        #[trigger] chats_menu_done(prior, done, chats_menu_entry(prior, x as int, y as int, width))
        && next == (Chat { screen: Screen { menu_open: false, ..done.screen }, ..done })
}

/// What a key press does: on the screen of the chats, the key does what `key_pressed` says, the
/// window is handed the text to copy and asked for the clipboard's text when the key wants them;
/// else nothing changes.
pub open spec fn key_handled(prior: Chat, next: Chat, key: Key, on_chat: bool, actions: Seq<WindowAction>) -> bool {
    &&& on_chat ==> exists|pressed: Chat| #[trigger] key_pressed(prior, pressed, key)
        && next == (Chat { clipboard: Clipboard { pending: false, paste_wanted: false, ..pressed.clipboard }, ..pressed })
        && actions.len() == (if pressed.clipboard.pending { 1int } else { 0int }) + (if pressed.clipboard.paste_wanted { 1int } else { 0int })
        && (pressed.clipboard.pending ==> (actions[0] matches WindowAction::Copy(t) && t@ == pressed.clipboard.text@))
        && (pressed.clipboard.paste_wanted ==> actions.last() is RequestPaste)
    &&& !on_chat ==> next == prior && actions.len() == 0
}

/// A key press.
#[verifier::spinoff_prover]
fn key_event(chat: &mut Chat, key: Key, on_chat: bool, actions: &mut Vec<WindowAction>)
    requires
        old(chat).wf(),
        old(actions)@.len() == 0,
    ensures
        final(chat).wf(),
        key_handled(*old(chat), *final(chat), key, on_chat, final(actions)@),
{
    if on_chat {
        chat.key(key);
        let ghost pressed = *chat;
        copy_actions(chat, actions);
        if chat.take_paste_request() {
            actions.push(WindowAction::RequestPaste);
        }
        assert(key_pressed(*old(chat), pressed, key));
    }
}

/// A click on the screen of the chats with no message box or menu open.
#[verifier::rlimit(100)]
#[verifier::spinoff_prover]
fn click_chats(chat: &mut Chat, pointer: &mut Pointer, x: i32, y: i32, now_ms: i64, actions: &mut Vec<WindowAction>) -> (found: (Hit, Act))
    requires
        old(chat).wf(),
        old(pointer).wf(),
    ensures
        final(chat).wf(),
        final(pointer).wf(),
        chats_clicked(*old(chat), *final(chat), *old(pointer), *final(pointer), x, y, now_ms, found.0, found.1),
{
    let width = pointer.width;
    let height = pointer.height;
    let fonts = chat.font.offers(CHIP) && chat.font.offers(INPUT_TEXT);
    let clicks = count_click(pointer, now_ms, x, y);
    pointer.at = now_ms;
    pointer.x = x;
    pointer.y = y;
    pointer.clicks = clicks;
    pointer.drag = None;
    chat.marks.flash = None;
    let menu_ok = match chat.marks.message_menu { Some((i, _, _)) => i < chat.store.messages.len(), None => true };
    if !menu_ok {
        chat.marks.message_menu = None;
    }
    assert(*chat == click_ready(*old(chat)));
    let ghost ready = *chat;
    let hit = if fonts { hit_test(x, y, width, height, chat) } else { Hit::Nothing };
    let act = act_of(hit, chat.marks.picker_reaction.is_some(), chat.call.dialpad_open, chat.screen.starred_open);
    if fonts {
        let keep_menu = perform(chat, pointer, act, clicks);
        let ghost done = *chat;
        if !keep_menu {
            chat.marks.message_menu = None;
        }
        assert(act_done(ready, done, act, clicks, width as int));
        assert(*chat == (if keeps_menu(ready, act) { done } else { menu_closed(done) }));
    }
    copy_actions(chat, actions);
    (hit, act)
}

/// A click of the left button at (`x`, `y`) at `now_ms`: an answer to the message box, an entry
/// of a menu, or a click on the screen of the chats.
#[verifier::rlimit(100)]
#[verifier::spinoff_prover]
fn click(chat: &mut Chat, pointer: &mut Pointer, x: i32, y: i32, now_ms: i64, on_chat: bool, actions: &mut Vec<WindowAction>)
    -> (found: (Option<Hit>, Option<Act>))
    requires
        old(chat).wf(),
        old(pointer).wf(),
    ensures
        final(chat).wf(),
        final(pointer).wf(),
        click_handled(*old(chat), *final(chat), *old(pointer), *final(pointer), x, y, now_ms, on_chat, found.0, found.1),
{
    let width = pointer.width;
    let height = pointer.height;
    let fonts = chat.font.offers(CHIP) && chat.font.offers(INPUT_TEXT);
    if on_chat && chat.dialog.open {
        if fonts {
            match dialog_hit(x, y, width, height, chat) {
                Some(true) => {
                    if chat.confirming() {
                        chat.dialog_answer(true);
                    } else {
                        chat.dialog.open = false;
                    }
                },
                Some(false) => chat.dialog_answer(false),
                None => {},
            }
        }
        (None, None)
    } else if on_chat && chat.screen.chat_menu_open {
        let entry = conversation_menu_entry_at(x, y, width);
        match entry {
            Some(0) => chat.screen.info_open = true,
            Some(1) => chat.toggle_silence(),
            Some(2) => chat.close_conversation(),
            Some(3) => chat.ask_clear(),
            Some(4) => chat.ask_remove(),
            _ => {},
        }
        let ghost done = *chat;
        assert(chat_menu_done(*old(chat), done, entry));
        chat.screen.chat_menu_open = false;
        (None, None)
    } else if on_chat && chat.screen.menu_open {
        let entry = if chat.screen.tab == Tab::Chats { chats_menu_entry_at(&chat.font, x, y, sidebar_width(width)) } else { None };
        match entry {
            Some(2) => chat.open_starred(),
            Some(4) => chat.mark_all_read(),
            _ => {},
        }
        let ghost done = *chat;
        assert(chats_menu_done(*old(chat), done, entry));
        chat.screen.menu_open = false;
        (None, None)
    } else if on_chat {
        let (hit, act) = click_chats(chat, pointer, x, y, now_ms, actions);
        (Some(hit), Some(act))
    } else {
        (None, None)
    }
}

/// What a drag that started in text box `drag` does when the pointer reaches `x` with the button
/// `pressed` on the screen of the chats: the selection of that box runs from its anchor to the character there (in the message
/// box only with the fonts ready).
pub open spec fn dragged(prior: Chat, next: Chat, pressed: bool, on_chat: bool, drag: Option<Drag>, x: int, width: int) -> bool {
    if !(pressed && on_chat) { next == prior } else { match drag {
        Some(Drag::Message) => if fonts_ready(&prior) { field_dragged(prior, next, true, message_caret(prior, x, width) as usize) }
            else { next == prior },
        Some(Drag::Search) => field_dragged(prior, next, false, search_caret(prior, x, width) as usize),
        Some(Drag::Find) => find_dragged(prior, next, find_caret(prior, x, width) as usize),
        None => next == prior,
    } }
}

/// The message the pointer at (`x`, `y`) hovers: in the conversation shown on the chats tab, off
/// the contact's panel, the forward panel and the message box, the one whose hover button it is
/// still near, else the one under it.
pub open spec fn hover_spot(chat: Chat, x: int, y: int, width: int, on_chat: bool) -> Option<usize> {
    if on_chat && chat.screen.open && chat.screen.tab == Tab::Chats && x >= side_of(width) && !chat.marks.forward_open
        && !chat.dialog.open && !(chat.screen.info_open && x >= width - crate::view::INFO_W) {
        match chat.marks.hover {
            Some(current) => match button_center(&chat, layout_of(&chat).0, current as int, width) {
                Some(c) => if crate::view::near(x, c.0, 19) && crate::view::near(y, c.1, 19) { Some(current) }
                    else { bubble_under(&chat, layout_of(&chat).0, x, y, width) },
                None => bubble_under(&chat, layout_of(&chat).0, x, y, width),
            },
            None => bubble_under(&chat, layout_of(&chat).0, x, y, width),
        }
    } else {
        None
    }
}

/// Whether `cursor` is the pointer's shape over (`x`, `y`): an arrow off the screen of the chats
/// or while it cannot be laid out; over the message box a hand on its buttons; else the shape over
/// what lies there.
pub open spec fn shape_over(chat: Chat, cursor: Cursor, x: int, y: int, width: int, height: int, on_chat: bool) -> bool {
    let menu_ok = match chat.marks.message_menu { Some(m) => (m.0 as int) < chat.store.messages@.len(), None => true };
    if !on_chat || !fonts_ready(&chat) || !menu_ok {
        cursor == Cursor::Arrow
    } else if chat.dialog.open {
        cursor == (if crate::view::dialog_button(&chat, x, y, width, height) is Some { Cursor::Pointer } else { Cursor::Arrow })
    } else {
        exists|hit: Hit| #[trigger] under_click(chat, hit, x, y, width, height) && cursor == cursor_for(hit)
    }
}

/// What the pointer moving to (`x`, `y`) does: with the button held on the screen of the chats, a
/// drag moves on; let go, the drag ends; the hovered message follows, and the window is told the
/// pointer's shape.
pub open spec fn moved_to(prior: Chat, next: Chat, p0: Pointer, p1: Pointer, x: i32, y: i32, pressed: bool, on_chat: bool,
    actions: Seq<WindowAction>) -> bool {
    let width = p0.width as int;
    &&& p1 == (Pointer { drag: if pressed { p0.drag } else { None }, ..p0 })
    &&& exists|mid: Chat| #[trigger] dragged(prior, mid, pressed, on_chat, p0.drag, x as int, width)
        && next == (Chat { marks: Marks { hover: hover_spot(mid, x as int, y as int, width, on_chat), ..mid.marks }, ..mid })
    &&& actions.len() == 1
    &&& actions[0] matches WindowAction::ShowCursor(cursor) && shape_over(next, cursor, x as int, y as int, width, p0.height as int, on_chat)
}

/// The pointer moved to (`x`, `y`), with the button `pressed` or not.
#[verifier::rlimit(100)]
#[verifier::spinoff_prover]
fn motion(chat: &mut Chat, pointer: &mut Pointer, x: i32, y: i32, pressed: bool, on_chat: bool, actions: &mut Vec<WindowAction>)
    requires
        old(chat).wf(),
        old(pointer).wf(),
        old(actions)@.len() == 0,
    ensures
        final(chat).wf(),
        final(pointer).wf(),
        moved_to(*old(chat), *final(chat), *old(pointer), *final(pointer), x, y, pressed, on_chat, final(actions)@),
{
    let width = pointer.width;
    let height = pointer.height;
    let fonts = chat.font.offers(CHIP) && chat.font.offers(INPUT_TEXT);
    if pressed && on_chat {
        match pointer.drag {
            Some(Drag::Message) => {
                if fonts {
                    let at = message_caret_at(chat, x, width);
                    chat.drag_field(true, at);
                }
            },
            Some(Drag::Search) => {
                let at = search_caret_at(chat, x, width, !chat.call.dialpad_open);
                chat.drag_field(false, at);
            },
            Some(Drag::Find) => {
                let at = find_caret_at(chat, x, width);
                chat.drag_find(at);
            },
            None => {},
        }
    }
    let ghost mid = *chat;
    assert(dragged(*old(chat), mid, pressed, on_chat, old(pointer).drag, x as int, width as int));
    if !pressed {
        pointer.drag = None;
    }
    let hover = if on_chat && chat.screen.open && chat.screen.tab == Tab::Chats && x >= sidebar_width(width)
        && !chat.marks.forward_open && !chat.dialog.open && !over_info(chat, x, width) {
        hover_at(chat, x, y, width)
    } else {
        None
    };
    chat.marks.hover = hover;
    let menu_ok = match chat.marks.message_menu { Some((i, _, _)) => i < chat.store.messages.len(), None => true };
    let fonts_now = chat.font.offers(CHIP) && chat.font.offers(INPUT_TEXT);
    let cursor = if !on_chat || !fonts_now || !menu_ok {
        Cursor::Arrow
    } else if chat.dialog.open {
        if dialog_hit(x, y, width, height, chat).is_some() { Cursor::Pointer } else { Cursor::Arrow }
    } else {
        let hit = hit_test(x, y, width, height, chat);
        assert(under_click(*chat, hit, x as int, y as int, width as int, height as int));
        cursor_over(hit)
    };
    actions.push(WindowAction::ShowCursor(cursor));
    assert(shape_over(*chat, cursor, x as int, y as int, width as int, height as int, on_chat));
}

/// One event of the window. `on_chat`: the screen of the chats is showing (not the notice or the
/// pairing code).
#[verifier::rlimit(100)]
#[verifier::spinoff_prover]
pub fn on_window_event(chat: &mut Chat, pointer: &mut Pointer, event: WindowEvent, now_ms: i64, on_chat: bool) -> (out: Handled)
    requires
        old(chat).wf(),
        old(pointer).wf(),
    ensures
        final(chat).wf(),
        final(pointer).wf(),
        match event {
            WindowEvent::Click { x, y } => click_handled(*old(chat), *final(chat), *old(pointer), *final(pointer), x, y, now_ms, on_chat,
                out.hit, out.act),
            WindowEvent::Key(key) => key_handled(*old(chat), *final(chat), key, on_chat, out.actions@),
            WindowEvent::Paste(text) => {
                &&& on_chat ==> pasted(*old(chat), *final(chat), text@)
                &&& !on_chat ==> *final(chat) == *old(chat)
            },
            WindowEvent::RightClick { x, y } => {
                &&& on_chat ==> *final(chat) == (Chat { marks: Marks { message_menu: menu_at(*old(chat), x, y, old(pointer).width as int),
                    ..old(chat).marks }, ..*old(chat) })
                &&& !on_chat ==> *final(chat) == *old(chat)
            },
            WindowEvent::Focus(focused) => *final(chat) == (Chat { screen: crate::screen::Screen { window_focused: focused,
                caret_on: true, ..old(chat).screen }, ..*old(chat) }) && out.actions@.len() == 0,
            WindowEvent::Scroll { x, y, down } => {
                let to = scroll_to(*old(chat), x as int, y as int, old(pointer).width as int, old(pointer).height as int);
                &&& on_chat ==> out.scroll == Some(to) && wheel_scrolled(*old(chat), *final(chat), to, if down { 1i32 } else { -1i32 })
                &&& !on_chat ==> out.scroll is None && *final(chat) == *old(chat)
            },
            WindowEvent::Resize(w, h) => {
                let fits = 0 < w <= 0x100_0000 && 0 < h <= 0x100_0000 && (w != old(pointer).width || h != old(pointer).height);
                &&& fits ==> final(pointer).width == w && final(pointer).height == h && resized(*old(chat), *final(chat), w, h)
                &&& !fits ==> *final(pointer) == *old(pointer) && *final(chat) == *old(chat)
            },
            WindowEvent::Motion { x, y, pressed } => moved_to(*old(chat), *final(chat), *old(pointer), *final(pointer), x, y, pressed,
                on_chat, out.actions@),
        },
{
    let mut actions: Vec<WindowAction> = Vec::new();
    let mut out_hit: Option<Hit> = None;
    let mut out_act: Option<Act> = None;
    let mut out_scroll: Option<ScrollTo> = None;
    let width = pointer.width;
    let height = pointer.height;
    match event {
        WindowEvent::Resize(w, h) => {
            if 0 < w && w <= 0x100_0000 && 0 < h && h <= 0x100_0000 && (w != width || h != height) {
                pointer.width = w;
                pointer.height = h;
                chat.resize(w, h);
            }
        },
        WindowEvent::Key(key) => key_event(chat, key, on_chat, &mut actions),
        WindowEvent::Focus(focused) => {
            chat.screen.window_focused = focused;
            chat.screen.caret_on = true;
        },
        WindowEvent::Paste(text) => {
            if on_chat {
                chat.paste(text.as_str());
            }
        },
        WindowEvent::Motion { x, y, pressed } => motion(chat, pointer, x, y, pressed, on_chat, &mut actions),
        WindowEvent::RightClick { x, y } => {
            if on_chat {
                chat.marks.message_menu = if chat.screen.open && chat.screen.tab == Tab::Chats && x >= sidebar_width(width)
                    && !over_info(chat, x, width) {
                    match message_at(chat, x, y, width) {
                        Some(index) => Some((index, x, y)),
                        None => None,
                    }
                } else {
                    None
                };
            }
        },
        WindowEvent::Scroll { x, y, down } => {
            if on_chat {
                let notches: i32 = if down { 1 } else { -1 };
                let to = if chat.marks.forward_open {
                    ScrollTo::Forward
                } else if chat.marks.picker_open && in_picker(x, y, width, height) {
                    ScrollTo::Picker
                } else if x < sidebar_width(width) {
                    if chat.screen.tab == Tab::Chats && !chat.screen.new_chat && !chat.screen.starred_open { ScrollTo::List } else { ScrollTo::Panel }
                } else {
                    ScrollTo::Conversation
                };
                match to {
                    ScrollTo::Forward => chat.scroll_forward(notches),
                    ScrollTo::Picker => chat.scroll_picker(notches),
                    ScrollTo::List => chat.scroll_list(notches),
                    ScrollTo::Panel => chat.scroll_panel(notches),
                    ScrollTo::Conversation => chat.scroll_conversation(notches),
                }
                out_scroll = Some(to);
            }
        },
        WindowEvent::Click { x, y } => {
            let (hit, act) = click(chat, pointer, x, y, now_ms, on_chat, &mut actions);
            out_hit = hit;
            out_act = act;
        },
    }
    Handled { actions, hit: out_hit, act: out_act, scroll: out_scroll }
}

} // verus!
