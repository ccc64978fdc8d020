use zapzap::chat::Chat;
use zapzap::chat_keys::Key;
use zapzap::font::Font;
use zapzap::items::{CallPhase, Focus};
use zapzap::view::{FindHit, Hit};
use zapzap::window::{act_of, count_click, cursor_over, on_timeout, on_window_event, quick_reaction_at, Act, Cursor, Pointer,
    WindowAction, WindowEvent};

/// An atlas with the two text styles and only '?', 7 px wide: enough to lay the chat out.
fn font() -> Font {
    let mut atlas = vec![2u8, 1, 0, 14, 0, 12, 0, b'?', 0];
    for _ in 0..3 {
        atlas.extend_from_slice(&[25, 0, 0, 0]);
    }
    atlas.extend_from_slice(&[27, 0, 0, 0]);
    atlas.extend_from_slice(&[0, 0]);
    for _ in 0..2 {
        atlas.extend_from_slice(&[0xC0, 0x01, 0, 0, 0, 0, 0, 0, 0, 0]);
    }
    Font::new(atlas, vec![0, 0]).expect("a well-formed atlas")
}

/// The chat screen with conversation 3 open.
fn open_chat() -> Chat {
    let mut chat = Chat::new(font());
    chat.start(1100, 700);
    chat.set_conversation(3, 0, "12:00", "Ana", "");
    chat.select(3);
    chat.take_outbox();
    chat
}

fn after_click(pointer: &mut Pointer, at: i64, x: i32, y: i32) -> u8 {
    let clicks = count_click(pointer, at, x, y);
    pointer.at = at;
    pointer.x = x;
    pointer.y = y;
    pointer.clicks = clicks;
    clicks
}

#[test]
fn clicks_close_in_time_and_place_count_up_to_three() {
    let mut pointer = Pointer::new(1100, 700);
    assert_eq!(after_click(&mut pointer, 10_000, 100, 100), 1);
    assert_eq!(after_click(&mut pointer, 10_300, 103, 98), 2);
    assert_eq!(after_click(&mut pointer, 10_750, 104, 101), 3);
    assert_eq!(after_click(&mut pointer, 11_000, 104, 101), 3);
    // Too far away, then too late.
    assert_eq!(after_click(&mut pointer, 11_100, 110, 101), 1);
    assert_eq!(after_click(&mut pointer, 11_551, 110, 101), 1);
}

#[test]
fn the_pointer_shape_follows_what_is_under_it() {
    assert_eq!(cursor_over(Hit::MessageBox(10)), Cursor::Text);
    assert_eq!(cursor_over(Hit::Find(FindHit::Box(3))), Cursor::Text);
    assert_eq!(cursor_over(Hit::Conversation), Cursor::Arrow);
    assert_eq!(cursor_over(Hit::Nothing), Cursor::Arrow);
    assert_eq!(cursor_over(Hit::Send), Cursor::Pointer);
}

#[test]
fn a_click_on_the_picker_or_back_depends_on_what_is_open() {
    assert_eq!(act_of(Hit::Emoji(4), true, false, false), Act::ReactWithPicker(4));
    assert_eq!(act_of(Hit::Emoji(4), false, false, false), Act::InsertEmoji(4));
    assert_eq!(act_of(Hit::EmojiPanel, false, false, false), Act::Stay);
    assert_eq!(act_of(Hit::Back, false, true, true), Act::CloseDialpad);
    assert_eq!(act_of(Hit::Back, false, false, true), Act::CloseStarred);
    assert_eq!(act_of(Hit::Back, false, false, false), Act::CloseNewChat);
    assert_eq!(act_of(Hit::Send, false, false, false), Act::Target(Hit::Send));
}

#[test]
fn the_quick_reactions_come_in_their_order() {
    let all: Vec<char> = (0..6).map(quick_reaction_at).collect();
    assert_eq!(all, vec!['👍', '❤', '😂', '😮', '😢', '🙏']);
}

#[test]
fn keys_type_on_the_screen_of_the_chats_only() {
    let mut chat = open_chat();
    let mut pointer = Pointer::new(1100, 700);
    let handled = on_window_event(&mut chat, &mut pointer, WindowEvent::Key(Key::Char('o')), 0, true);
    assert!(handled.actions.is_empty());
    assert_eq!(chat.boxes.draft.text(), "o");
    on_window_event(&mut chat, &mut pointer, WindowEvent::Key(Key::Char('i')), 0, false);
    assert_eq!(chat.boxes.draft.text(), "o");
}

#[test]
fn ctrl_v_asks_the_window_for_the_clipboard_and_the_paste_is_typed() {
    let mut chat = open_chat();
    let mut pointer = Pointer::new(1100, 700);
    let handled = on_window_event(&mut chat, &mut pointer, WindowEvent::Key(Key::Ctrl('v', false)), 0, true);
    assert_eq!(handled.actions.len(), 1);
    assert!(matches!(handled.actions[0], WindowAction::RequestPaste));
    on_window_event(&mut chat, &mut pointer, WindowEvent::Paste("bom\ndia".to_string()), 0, true);
    assert_eq!(chat.boxes.draft.text(), "bom dia");
}

#[test]
fn losing_the_focus_shows_the_caret_and_a_resize_reaches_the_chat() {
    let mut chat = open_chat();
    let mut pointer = Pointer::new(1100, 700);
    chat.screen.caret_on = false;
    on_window_event(&mut chat, &mut pointer, WindowEvent::Focus(false), 0, true);
    assert!(chat.screen.caret_on && !chat.screen.window_focused);
    on_window_event(&mut chat, &mut pointer, WindowEvent::Resize(900, 600), 0, true);
    assert_eq!((pointer.width, pointer.height), (900, 600));
    assert_eq!(chat.scroll.window_height, 600);
    on_window_event(&mut chat, &mut pointer, WindowEvent::Resize(0, 600), 0, true);
    assert_eq!((pointer.width, pointer.height), (900, 600));
}

#[test]
fn a_wait_that_runs_out_blinks_the_caret_and_ticks_the_call() {
    let mut chat = open_chat();
    assert_eq!(chat.screen.focus, Focus::Message);
    let caret = chat.screen.caret_on;
    on_timeout(&mut chat, true, 1_000);
    assert_eq!(chat.screen.caret_on, !caret);
    on_timeout(&mut chat, false, 1_000);
    assert_eq!(chat.screen.caret_on, !caret);
    chat.call.phase = CallPhase::Ended;
    chat.call.until = 1_002;
    on_timeout(&mut chat, true, 1_001);
    assert_eq!(chat.call.phase, CallPhase::Ended);
    on_timeout(&mut chat, true, 1_002);
    assert_eq!(chat.call.phase, CallPhase::Idle);
}

#[test]
fn sending_writes_one_line_and_an_empty_box_sends_nothing() {
    let mut chat = open_chat();
    chat.key(Key::Char('o'));
    chat.key(Key::Char('i'));
    chat.send();
    assert_eq!(chat.take_outbox(), vec!["SEND\t3\toi".to_string()]);
    let count = chat.store.messages.len();
    chat.send();
    assert!(chat.take_outbox().is_empty());
    assert_eq!(chat.store.messages.len(), count);
}
