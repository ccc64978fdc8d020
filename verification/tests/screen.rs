use zapzap::chat::Chat;
use zapzap::chat_keys::{EditKey, Key};
use zapzap::font::Font;
use zapzap::items::Focus;
use zapzap::lines::{handle_line, parse_line, Notice, Screen, UiLine};

/// An atlas with the two text styles and only '?', 7 px wide: enough to lay the chat out.
fn font() -> Font {
    let mut atlas = vec![2u8, 1, 0, 14, 0, 12, 0, b'?', 0];
    for _ in 0..3 {
        atlas.extend_from_slice(&[25, 0, 0, 0]);
    }
    atlas.extend_from_slice(&[27, 0, 0, 0]);
    atlas.extend_from_slice(&[0, 0]);
    for _ in 0..2 {
        atlas.extend_from_slice(&[0xC0, 0x01, 0, 0, 0, 0, 0, 0, 0, 0]);
    }
    Font::new(atlas, vec![0, 0]).expect("a well-formed atlas")
}

fn chat() -> Chat {
    let mut chat = Chat::new(font());
    chat.start(1280, 800);
    chat
}

fn feed(chat: &mut Chat, lines: &[&str]) -> Screen {
    let mut screen = Screen::Notice;
    let mut notice = Notice::new();
    for line in lines {
        handle_line(line, &mut screen, &mut notice, chat);
    }
    screen
}

fn draft(chat: &Chat) -> String {
    chat.boxes.draft.text()
}

fn type_text(chat: &mut Chat, text: &str) {
    for c in text.chars() {
        chat.key_at(Key::Char(c), 1_789_916_400);
    }
}

#[test]
fn lines_read_into_what_they_say() {
    match parse_line("CHAT\t3\t2\t10:00\tAna\tonline") {
        Some(UiLine::Chat { id, unread, time, name, status }) => {
            assert_eq!((id, unread), (3, 2));
            assert_eq!((time.as_str(), name.as_str(), status.as_str()), ("10:00", "Ana", "online"));
        }
        _ => panic!("a CHAT line"),
    }
    match parse_line("MSG\t1\t0\t1\t09:30\tA1\t\toi\tcom tab") {
        Some(UiLine::Msg { chat, outgoing, read, id, reply, text, .. }) => {
            assert_eq!((chat, outgoing, read), (1, false, true));
            assert_eq!((id.as_str(), reply.as_str(), text.as_str()), ("A1", "", "oi\tcom tab"));
        }
        _ => panic!("a MSG line"),
    }
    assert!(matches!(parse_line("DELIVERED\t"), Some(UiLine::Delivered(0))));
    assert!(matches!(parse_line("CALLSTATE\tended"), Some(UiLine::CallEnded(reason)) if reason.is_empty()));
    assert!(matches!(parse_line("CHAT\t300"), None));
}

#[test]
fn lines_that_do_not_read_are_ignored() {
    assert!(parse_line("BOGUS\tx").is_none());
    assert!(parse_line("CHAT\tx\t0\t10:00\tAna\t").is_none());
    assert!(parse_line("READ\t+3").is_none());
    assert!(parse_line("CALLSTATE\tfailed\tonly a title").is_none());
    assert!(parse_line("MEDIA\t1\tA1\t1\t320").is_none());
    let mut chat = chat();
    let before = chat.take_outbox().len();
    let screen = feed(&mut chat, &["BOGUS\tx", "CHAT\tx"]);
    assert!(matches!(screen, Screen::Notice));
    assert_eq!(before, 0);
    assert!(!chat.store.conversations[0].used);
}

#[test]
fn the_core_fills_the_screen() {
    let mut chat = chat();
    let screen = feed(&mut chat, &["CHAT\t3\t0\t10:00\tAna\t", "MSG\t3\t0\t0\t10:01\tA1\t\toi", "OPEN"]);
    assert!(matches!(screen, Screen::Chat));
    assert!(chat.store.live);
    assert!(chat.store.conversations[3].used);
    assert_eq!(chat.store.messages.len(), 1);
    assert_eq!(chat.store.messages[0].text.as_str(), "oi");
    assert_eq!(chat.store.messages[0].time.as_str(), "10:01");
}

#[test]
fn a_pairing_code_that_fits_shows_and_one_that_does_not_leaves_the_notice() {
    let mut chat = chat();
    assert!(matches!(feed(&mut chat, &["QR\t2@abc,def"]), Screen::Login(_)));
    let long = format!("QR\t{}", "a".repeat(272));
    assert!(matches!(feed(&mut chat, &[long.as_str()]), Screen::Notice));
}

#[test]
fn a_long_notice_is_cut_at_its_room() {
    let mut chat = chat();
    let mut screen = Screen::Chat;
    let mut notice = Notice::new();
    let line = format!("NOTICE\t{}", "x".repeat(200));
    handle_line(&line, &mut screen, &mut notice, &mut chat);
    assert!(matches!(screen, Screen::Notice));
    assert_eq!(notice.text().len(), 128);
    // A cut through a two-byte letter keeps nothing.
    let line = format!("NOTICE\t{}é", "x".repeat(127));
    handle_line(&line, &mut screen, &mut notice, &mut chat);
    assert_eq!(notice.text(), "");
}

#[test]
fn enter_sends_the_draft_to_the_core_and_shows_it() {
    let mut chat = chat();
    feed(&mut chat, &["CHAT\t3\t0\t10:00\tAna\t", "OPEN"]);
    chat.select(3);
    chat.take_outbox();
    type_text(&mut chat, "oi");
    chat.key_at(Key::Enter, 1_789_916_400);
    let lines = chat.take_outbox();
    assert_eq!(lines, vec!["SEND\t3\toi".to_string()]);
    assert_eq!(chat.store.messages.last().unwrap().text.as_str(), "oi");
    assert_eq!(chat.store.messages.last().unwrap().time.as_str(), "12:00");
    assert_eq!(draft(&chat), "");
}

#[test]
fn undo_goes_back_a_word_at_a_time_and_redo_forward() {
    let mut chat = chat();
    feed(&mut chat, &["CHAT\t3\t0\t10:00\tAna\t"]);
    chat.select(3);
    type_text(&mut chat, "ab c");
    assert_eq!(draft(&chat), "ab c");
    chat.key_at(Key::Ctrl('z', false), 0);
    assert_eq!(draft(&chat), "ab ");
    chat.key_at(Key::Ctrl('z', false), 0);
    assert_eq!(draft(&chat), "");
    chat.key_at(Key::Ctrl('z', true), 0);
    assert_eq!(draft(&chat), "ab ");
    chat.key_at(Key::Ctrl('y', false), 0);
    assert_eq!(draft(&chat), "ab c");
}

#[test]
fn editing_keys_move_and_delete_by_word() {
    let mut chat = chat();
    feed(&mut chat, &["CHAT\t3\t0\t10:00\tAna\t"]);
    chat.select(3);
    type_text(&mut chat, "bom dia");
    chat.key_at(Key::Edit { key: EditKey::Left, shift: false, ctrl: true }, 0);
    assert_eq!(chat.message_caret().0, 4);
    chat.key_at(Key::Edit { key: EditKey::Backspace, shift: false, ctrl: false }, 0);
    assert_eq!(draft(&chat), "dia");
    chat.key_at(Key::Ctrl('a', false), 0);
    assert_eq!(chat.message_caret(), (3, (0, 3)));
    chat.key_at(Key::Backspace, 0);
    assert_eq!(draft(&chat), "");
}

#[test]
fn a_dead_key_puts_its_accent_on_the_next_letter() {
    let mut chat = chat();
    feed(&mut chat, &["CHAT\t3\t0\t10:00\tAna\t"]);
    chat.select(3);
    chat.key_at(Key::Dead('~'), 0);
    chat.key_at(Key::Char('a'), 0);
    chat.key_at(Key::Dead('´'), 0);
    chat.key_at(Key::Char(' '), 0);
    chat.key_at(Key::Dead('^'), 0);
    chat.key_at(Key::Char('x'), 0);
    assert_eq!(draft(&chat), "ã´^x");
}

#[test]
fn pasted_line_breaks_become_spaces_and_copying_takes_the_selection() {
    let mut chat = chat();
    feed(&mut chat, &["CHAT\t3\t0\t10:00\tAna\t", "OPEN"]);
    chat.select(3);
    chat.paste("a\nb\tc");
    assert_eq!(draft(&chat), "a b c");
    chat.key_at(Key::Ctrl('a', false), 0);
    chat.key_at(Key::Ctrl('x', false), 0);
    assert_eq!(draft(&chat), "");
    assert_eq!(chat.pending_copy().as_deref(), Some("a b c"));
    assert_eq!(chat.pending_copy(), None);
    chat.key_at(Key::Ctrl('v', false), 0);
    assert!(chat.take_paste_request());
    assert!(!chat.take_paste_request());
}

#[test]
fn the_find_bar_counts_the_matches_and_steps_through_them() {
    let mut chat = chat();
    feed(&mut chat, &["CHAT\t3\t0\t10:00\tAna\t", "MSG\t3\t0\t0\t10:01\tA1\t\tbom dia", "MSG\t3\t1\t0\t10:02\tA2\t\tBoa noite",
        "MSG\t3\t0\t0\t10:03\tA3\t\ttchau", "OPEN"]);
    chat.select(3);
    chat.key_at(Key::Ctrl('f', false), 0);
    assert!(chat.finder.open);
    assert_eq!(chat.screen.focus, Focus::Find);
    type_text(&mut chat, "bo");
    assert_eq!(chat.find_count(), 2);
    assert_eq!(chat.find_position(), Some(1));
    assert!(chat.is_current_find(1));
    chat.key_at(Key::Up, 0);
    assert_eq!(chat.find_position(), Some(0));
    assert!(chat.is_current_find(0));
    chat.key_at(Key::Up, 0);
    assert_eq!(chat.find_position(), Some(1));
    chat.key_at(Key::Escape, 0);
    assert!(!chat.finder.open);
    assert_eq!(chat.find_count(), 0);
}

#[test]
fn forwarding_sends_the_text_to_the_other_conversation() {
    let mut chat = chat();
    feed(&mut chat, &["CHAT\t3\t0\t10:00\tAna\t", "CHAT\t5\t0\t10:00\tBia\t", "MSG\t3\t0\t0\t10:01\tA1\t\toi", "OPEN"]);
    assert_eq!(chat.forward_targets(), vec![3, 5]);
    chat.open_forward(0);
    assert!(chat.marks.forward_open);
    chat.take_outbox();
    chat.forward_to_at(5, 1_789_916_400);
    assert!(!chat.marks.forward_open);
    assert_eq!(chat.take_outbox()[0], "SEND\t5\toi");
    assert_eq!(chat.store.messages.len(), 2);
    assert_eq!(chat.forward_targets()[0], 5);
}

#[test]
fn clearing_a_conversation_asks_first_and_tells_the_core() {
    let mut chat = chat();
    feed(&mut chat, &["CHAT\t3\t0\t10:00\tAna\t", "MSG\t3\t0\t0\t10:01\tA1\t\toi", "CHAT\t4\t0\t10:00\tBia\t",
        "MSG\t4\t0\t0\t10:01\tB1\t\tolá", "OPEN"]);
    chat.select(3);
    chat.ask_clear();
    chat.take_outbox();
    chat.key_at(Key::Escape, 0);
    assert!(!chat.dialog.open);
    assert_eq!(chat.store.messages.len(), 2);
    chat.ask_clear();
    chat.dialog_answer(true);
    assert_eq!(chat.take_outbox(), vec!["CLEARCHAT\t03".to_string()]);
    assert_eq!(chat.store.messages.len(), 1);
    assert_eq!(chat.store.messages[0].chat, 4);
    chat.ask_remove();
    chat.dialog_answer(true);
    assert_eq!(chat.take_outbox()[0], "DELETECHAT\t03");
    assert!(!chat.store.conversations[3].used);
    assert!(!chat.screen.open);
}

#[test]
fn a_preview_arrives_row_by_row() {
    let mut chat = chat();
    feed(&mut chat, &["CHAT\t3\t0\t10:00\tAna\t", "MSG\t3\t0\t0\t10:01\tA1\t\t", "MEDIA\t3\tA1\t1\t320\t240\tfoto.jpg",
        "THUMB\t3\tA1\t2\t2", "THUMBROW\t3\tA1\t0\t3412ffff", "THUMBROW\t3\tA1\t1\t00000100"]);
    let message = &chat.store.messages[0];
    assert_eq!((message.kind, message.media_w, message.media_h), (1, 320, 240));
    assert_eq!(message.label.as_str(), "foto.jpg");
    let (pixels, width, height) = chat.thumb_of(message).expect("a complete preview");
    assert_eq!((width, height), (2, 2));
    assert_eq!(&pixels[0..2], &[0x1234, 0xffff]);
    assert_eq!(&pixels[48..50], &[0x0000, 0x0001]);
}

#[test]
fn older_messages_go_before_the_first_one() {
    let mut chat = chat();
    feed(&mut chat, &["CHAT\t3\t0\t10:00\tAna\t", "MSG\t3\t0\t0\t10:01\tA2\t\tnovo", "PAST\t3\t0\t0\t09:00\tA1\t\tvelho"]);
    assert_eq!(chat.store.messages[0].text.as_str(), "velho");
    assert_eq!(chat.store.messages[1].text.as_str(), "novo");
}

#[test]
fn the_text_width_follows_the_window() {
    let mut chat = chat();
    chat.resize(1280, 800);
    assert_eq!(chat.text_limit(), 516);
    chat.resize(300, 800);
    // The conversation side is negative there: the bubble keeps its 200 pixels.
    assert_eq!(chat.text_limit(), 176);
}

#[test]
fn the_call_clock_shows_minutes_and_hours() {
    let mut chat = chat();
    chat.call.since = 1_000;
    assert_eq!(chat.call_clock_at(1_065), "01:05");
    assert_eq!(chat.call_clock_at(1_000 + 3_725), "1:02:05");
    assert_eq!(chat.call_clock_at(900), "00:00");
}

#[test]
fn reset_forgets_everything() {
    let mut chat = chat();
    feed(&mut chat, &["CHAT\t3\t0\t10:00\tAna\t", "MSG\t3\t0\t0\t10:01\tA1\t\toi", "CALL\t1\t2\tontem\tBia", "RESET"]);
    assert!(!chat.store.conversations[3].used);
    assert_eq!(chat.store.messages.len(), 0);
    assert_eq!(chat.lists.calls.len(), 0);
}

#[test]
fn a_message_line_keeps_the_tabs_of_its_text() {
    let mut chat = chat();
    feed(&mut chat, &["CHAT\t0\t0\t12:00\tAna\tonline", "MSG\t0\t0\t0\t12:00\tX1\t\toi\tcom tab"]);
    let m = chat.last_message(0).expect("the message arrived");
    assert_eq!(m.text.as_str(), "oi\tcom tab");
    assert_eq!(m.id.as_str(), "X1");
    assert_eq!(m.reply.as_str(), "");
    assert!(!m.outgoing);
    assert_eq!(m.time.as_str(), "12:00");
}

#[test]
fn delivered_and_read_lines_move_what_was_sent_forward() {
    let mut chat = chat();
    feed(&mut chat, &["CHAT\t2\t0\t12:00\tBia\t", "OPEN", "MSG\t2\t1\t0\t12:01\tA1\t\tpronto"]);
    feed(&mut chat, &["DELIVERED\t2"]);
    assert!(matches!(chat.last_message(2).unwrap().delivery, zapzap::items::Delivery::Delivered));
    feed(&mut chat, &["READ\t2"]);
    assert!(matches!(chat.last_message(2).unwrap().delivery, zapzap::items::Delivery::Read));
}

#[test]
fn marking_all_read_sends_one_line_per_conversation_with_unread() {
    let mut chat = chat();
    chat.set_conversation(0, 3, "12:00", "Ana", "");
    chat.set_conversation(1, 0, "12:00", "Bia", "");
    chat.set_conversation(12, 5, "12:00", "Caio", "");
    assert_eq!(chat.unread_total(), 8);
    chat.take_outbox();
    chat.mark_all_read();
    assert_eq!(chat.take_outbox(), vec!["MARKREAD\t00".to_string(), "MARKREAD\t12".to_string()]);
    assert_eq!(chat.unread_total(), 0);
}

#[test]
fn reacting_twice_with_the_same_emoji_takes_the_reaction_back() {
    let mut chat = chat();
    feed(&mut chat, &["CHAT\t3\t0\t10:00\tAna\t", "MSG\t3\t0\t1\t09:30\tA1\t\toi"]);
    chat.select(3);
    let i = chat.store.messages.len() - 1;
    let before = (chat.store.messages[i].tally, chat.store.messages[i].counts);
    chat.take_outbox();
    chat.react(i, '👍');
    assert_eq!(chat.store.messages[i].mine, '👍' as u32);
    assert_eq!(chat.store.messages[i].counts[0], 1);
    chat.react(i, '👍');
    assert_eq!(chat.store.messages[i].mine, 0);
    assert_eq!((chat.store.messages[i].tally, chat.store.messages[i].counts), before);
    assert_eq!(chat.take_outbox(), vec!["REACT\t03\tA1\t👍".to_string(), "REACT\t03\tA1\t".to_string()]);
}

#[test]
fn an_ended_call_shows_its_reason_until_two_seconds_later() {
    let mut chat = chat();
    chat.call.phase = zapzap::items::CallPhase::Active;
    chat.call_ended_at("Chamada encerrada", 1_000);
    assert_eq!(chat.call.phase, zapzap::items::CallPhase::Ended);
    assert_eq!(chat.call_reason(), "Chamada encerrada");
    assert!(chat.call_ticking());
    chat.tick_at(1_001);
    assert_eq!(chat.call.phase, zapzap::items::CallPhase::Ended);
    chat.tick_at(1_002);
    assert_eq!(chat.call.phase, zapzap::items::CallPhase::Idle);
    chat.call_ended_at("", 1_003);
    assert_eq!(chat.call.phase, zapzap::items::CallPhase::Idle);
}
