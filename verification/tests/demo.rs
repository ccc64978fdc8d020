use zapzap::demo::{opening_lines, peer_reaction, CHATS, HISTORY};
use zapzap::call::Event;

/// The ui stores these in fixed arrays; anything larger would be cut.
const UI_MAX_CHATS: usize = 48;
const UI_MAX_MESSAGES: usize = 384;
const UI_NAME: usize = 40;
const UI_STATUS: usize = 48;
const UI_MESSAGE: usize = 240;

#[test]
fn the_demo_fits_the_limits_of_the_ui() {
    assert!(CHATS.len() <= UI_MAX_CHATS && HISTORY.len() <= UI_MAX_MESSAGES);
    assert!(CHATS.iter().all(|(name, status, _)| name.len() <= UI_NAME && status.len() <= UI_STATUS));
    assert!(HISTORY.iter().all(|(chat, _, text, _)| *chat < CHATS.len() && text.len() <= UI_MESSAGE));
}

#[test]
fn every_conversation_has_a_message_and_the_screen_opens_last() {
    assert!((0..CHATS.len()).all(|id| HISTORY.iter().any(|message| message.0 == id)));
    let lines = opening_lines();
    assert_eq!(lines.first().unwrap()[0], "RESET");
    assert_eq!(lines.last().unwrap()[0], "OPEN");
    assert_eq!(lines.iter().filter(|line| line[0] == "CHAT").count(), CHATS.len());
    assert!(lines.iter().all(|line| line[0] != "CONTACT"), "contacts are sent on request");
    assert_eq!(lines.iter().filter(|line| line[0] == "MSG").count(), HISTORY.len());
}

#[test]
fn demo_no_field_can_break_the_line_format() {
    let forbidden = |text: &str| text.contains('\t') || text.contains('\n');
    assert!(opening_lines().iter().flatten().all(|field| !forbidden(field)));
}

#[test]
fn the_first_conversation_shows_the_time_of_its_last_message_and_quotes_name_their_message() {
    let lines = opening_lines();
    assert_eq!(lines[1], ["CHAT", "0", "0", "12:53", "Ana", "online"]);
    let quoting = lines.iter().find(|line| line[0] == "MSG" && line[5] == "d12").unwrap();
    assert_eq!(quoting[6], "d11");
    let media = lines.iter().find(|line| line[0] == "MEDIA").unwrap();
    assert_eq!(media[..6], ["MEDIA", "1", "d30", "1", "1600", "1200"]);
}

#[test]
fn the_pretend_contacts_answer_by_name() {
    assert!(matches!(peer_reaction("Mãe"), (2500, Event::PeerAnswered)));
    assert!(matches!(peer_reaction("Bruno"), (2500, Event::PeerEnded(reason)) if reason == "Ocupado"));
    assert!(matches!(peer_reaction("Ana"), (8000, Event::RingTimeout)));
}
