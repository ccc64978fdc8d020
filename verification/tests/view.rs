use zapzap::chat::Chat;
use zapzap::font::Font;
use zapzap::items::Tab;
use zapzap::view::{
    chats_menu_entry_at, chip_rects, conversation_menu_entry_at, dialog_hit, hit_test, hover_at, hover_button_menu_at,
    in_picker, message_at, message_box, over_info, picker_rect, quote_at, search_box, search_caret_at, tab_at, FindHit, Hit,
};

/// An atlas with the styles of the chat screen (14, 12 and the 14 px medium of the chips) and only
/// '?', 7 px wide, which stands in for every character.
fn font() -> Font {
    let mut atlas = vec![3u8, 1, 0, 14, 0, 12, 0, 0x0E, 0x02, b'?', 0];
    for _ in 0..3 {
        atlas.extend_from_slice(&[27, 0, 0, 0]);
    }
    atlas.extend_from_slice(&[29, 0, 0, 0]);
    atlas.extend_from_slice(&[0, 0]);
    for _ in 0..3 {
        atlas.extend_from_slice(&[0xC0, 0x01, 0, 0, 0, 0, 0, 0, 0, 0]);
    }
    Font::new(atlas, vec![0, 0]).expect("a well-formed atlas")
}

fn chat() -> Chat {
    let mut chat = Chat::new(font());
    chat.start(1280, 800);
    chat
}

#[test]
fn boxes_sit_where_the_layout_puts_them() {
    assert_eq!(search_box(400), (85, 66, 296, 40));
    assert_eq!(message_box(400, 1280), (412, 856));
    assert_eq!(picker_rect(400, 800), (460, 510, 288, 220));
    // A 1280 px window has a 448 px sidebar: the picker starts at 508.
    assert!(in_picker(600, 600, 1280, 800));
    assert!(!in_picker(507, 600, 1280, 800));
    assert!(!in_picker(600, 730, 1280, 800));
}

#[test]
fn the_rail_answers_by_height() {
    assert_eq!(tab_at(30, 800), Some(Tab::Chats));
    assert_eq!(tab_at(93, 800), Some(Tab::Calls));
    assert_eq!(tab_at(95, 800), None);
    assert_eq!(tab_at(122, 800), Some(Tab::Status));
    assert_eq!(tab_at(180, 800), Some(Tab::Channels));
    assert_eq!(tab_at(770, 800), Some(Tab::Settings));
    assert_eq!(tab_at(400, 800), None);
}

#[test]
fn menus_answer_by_entry() {
    assert_eq!(conversation_menu_entry_at(1041, 61, 1280), Some(0));
    assert_eq!(conversation_menu_entry_at(1041, 205, 1280), Some(4));
    assert_eq!(conversation_menu_entry_at(1041, 241, 1280), None);
    assert_eq!(conversation_menu_entry_at(1039, 100, 1280), None);
    assert_eq!(conversation_menu_entry_at(1268, 100, 1280), None);
    let font = font();
    // The widest label has 23 characters of 7 px: the menu is 222 px wide, from side - 107.
    assert_eq!(chats_menu_entry_at(&font, 341, 61, 448), Some(0));
    assert_eq!(chats_menu_entry_at(&font, 562, 200, 448), Some(3));
    assert_eq!(chats_menu_entry_at(&font, 563, 61, 448), None);
    assert_eq!(chats_menu_entry_at(&font, 400, 60, 448), None);
    assert_eq!(chats_menu_entry_at(&font, 400, 241, 448), None);
}

#[test]
fn chips_grow_with_the_unread_count() {
    let font = font();
    assert_eq!(chip_rects(&font, 0), [(85, 116, 60, 32), (153, 116, 95, 32)]);
    assert_eq!(chip_rects(&font, 5), [(85, 116, 60, 32), (153, 116, 108, 32)]);
    assert_eq!(chip_rects(&font, 5000), [(85, 116, 60, 32), (153, 116, 122, 32)]);
}

#[test]
fn clicks_on_the_chats_screen() {
    let chat = chat();
    assert_eq!(hit_test(10, 30, 1280, 800, &chat), Hit::Tab(Tab::Chats));
    assert_eq!(hit_test(10, 400, 1280, 800, &chat), Hit::Nothing);
    assert_eq!(hit_test(448 - 39, 32, 1280, 800, &chat), Hit::NewChat);
    assert_eq!(hit_test(448 - 87, 32, 1280, 800, &chat), Hit::Menu);
    assert_eq!(hit_test(100, 80, 1280, 800, &chat), Hit::SearchBox(100));
    assert_eq!(hit_test(100, 130, 1280, 800, &chat), Hit::Chip(0));
    assert_eq!(hit_test(160, 130, 1280, 800, &chat), Hit::Chip(1));
    assert_eq!(hit_test(200, 300, 1280, 800, &chat), Hit::Nothing);
    // No conversation is open: the right side takes no click.
    assert_eq!(hit_test(700, 400, 1280, 800, &chat), Hit::Nothing);
    assert!(!over_info(&chat, 1200, 1280));
}

#[test]
fn nothing_is_under_a_click_without_bubbles() {
    let chat = chat();
    assert_eq!(message_at(&chat, 700, 300, 1280), None);
    assert_eq!(quote_at(&chat, 700, 300, 1280), None);
    assert_eq!(hover_at(&chat, 700, 300, 1280), None);
    assert_eq!(hover_button_menu_at(&chat, 0, 1280), (0, 0));
    assert_eq!(search_caret_at(&chat, 200, 1280, true), 0);
}

#[test]
fn the_message_box_button() {
    let chat = chat();
    // "OK" is 14 px: the button is 62 px wide at the right of a 500 px box 260 px tall.
    assert_eq!(dialog_hit(800, 480, 1280, 800, &chat), Some(true));
    assert_eq!(dialog_hit(798, 480, 1280, 800, &chat), None);
    assert_eq!(dialog_hit(800, 509, 1280, 800, &chat), None);
}

#[test]
fn find_hits_compare() {
    assert_eq!(FindHit::Box(3), FindHit::Box(3));
    assert_ne!(Hit::Find(FindHit::Up), Hit::Find(FindHit::Down));
}
