use zapzap::link::{clock_at, contacts_reply, parse_command, stamp_at, Command};

#[test]
fn a_send_line_carries_the_chat_and_the_whole_text() {
    let Some(Command::Send { chat, text }) = parse_command("SEND\t3\toi\tcom tab") else { panic!("not a command") };
    assert_eq!((chat, text.as_str()), (3, "oi\tcom tab"));
}

#[test]
fn lines_that_are_not_commands_are_ignored() {
    assert!(parse_command("SEND\tx\toi").is_none());
    assert!(parse_command("SEND\t1").is_none());
    assert!(parse_command("HELLO\t1\toi").is_none());
    assert!(parse_command("DIAL").is_none());
    assert!(parse_command("").is_none());
}

#[test]
fn call_lines_are_commands() {
    assert!(matches!(parse_command("DIAL\tMãe"), Some(Command::Dial { name }) if name == "Mãe"));
    assert!(matches!(parse_command("ANSWER"), Some(Command::Answer)));
    assert!(matches!(parse_command("HANGUP"), Some(Command::Hangup)));
}

#[test]
fn a_reply_line_carries_the_chat_the_id_and_the_whole_text() {
    let Some(Command::Reply { chat, id, text }) = parse_command("REPLY\t2\tABC123\tsim\tcom tab") else { panic!("not a reply") };
    assert_eq!((chat, id.as_str(), text.as_str()), (2, "ABC123", "sim\tcom tab"));
    assert!(parse_command("REPLY\t2\tABC123").is_none());
}

#[test]
fn a_delete_line_carries_the_chat_and_the_id() {
    assert!(matches!(parse_command("DELETE\t3\tXYZ"), Some(Command::Delete { chat: 3, id }) if id == "XYZ"));
    assert!(parse_command("DELETE\t3").is_none());
}

#[test]
fn a_react_line_may_carry_an_empty_emoji_to_take_the_reaction_back() {
    assert!(matches!(parse_command("REACT\t01\tABC\t👍"), Some(Command::React { chat: 1, id, emoji }) if id == "ABC" && emoji == "👍"));
    assert!(matches!(parse_command("REACT\t2\tABC\t"), Some(Command::React { emoji, .. }) if emoji.is_empty()));
    assert!(matches!(parse_command("THUMB\t02\tABC"), Some(Command::Thumb { chat: 2, id }) if id == "ABC"));
    assert!(matches!(parse_command("OLDER\t03\tABC"), Some(Command::Older { chat: 3, id }) if id == "ABC"));
    assert!(matches!(parse_command("EDIT\t01\tABC\tnovo texto"), Some(Command::Edit { chat: 1, id, text }) if id == "ABC" && text == "novo texto"));
    assert!(matches!(parse_command("MUTE\t02\t1"), Some(Command::Mute { chat: 2, muted: true })));
    assert!(matches!(parse_command("DELETECHAT\t05"), Some(Command::DeleteChat { chat: 5 })));
    assert!(matches!(parse_command("CLEARCHAT\t04"), Some(Command::ClearChat { chat: 4 })));
    assert!(matches!(parse_command("MARKREAD\t03"), Some(Command::MarkRead { chat: 3 })));
    assert!(matches!(parse_command("STAR\t01\tABC\t1"), Some(Command::Star { chat: 1, id, starred: true }) if id == "ABC"));
    assert!(matches!(parse_command("STAR\t01\tABC\t0"), Some(Command::Star { starred: false, .. })));
    assert!(parse_command("REACT\t2\tABC").is_none());
}

#[test]
fn a_contacts_line_carries_the_query_even_when_empty() {
    assert!(matches!(parse_command("CONTACTS\t"), Some(Command::Contacts { query }) if query.is_empty()));
    assert!(matches!(parse_command("CONTACTS\tsil"), Some(Command::Contacts { query }) if query == "sil"));
}

#[test]
fn an_openchat_line_carries_the_contact_name() {
    assert!(matches!(parse_command("OPENCHAT\tMãe"), Some(Command::OpenChat { name }) if name == "Mãe"));
}

#[test]
fn the_clock_shows_brasilia_time() {
    assert_eq!(clock_at(0), "21:00");
    assert_eq!(stamp_at(0), "21:00 -1");
    assert_eq!(stamp_at(3 * 3600), "00:00 0");
    assert_eq!(clock_at(15 * 3600 + 30 * 60), "12:30");
    assert_eq!(clock_at(3 * 3600), "00:00");
}

#[test]
fn numbers_may_carry_a_plus_but_not_overflow() {
    assert!(matches!(parse_command("MARKREAD\t+7"), Some(Command::MarkRead { chat: 7 })));
    assert!(parse_command("MARKREAD\t+").is_none());
    assert!(parse_command("MARKREAD\t-1").is_none());
    assert!(parse_command("MARKREAD\t99999999999999999999999").is_none());
    assert!(matches!(parse_command("MUTE\t1\t1\t"), Some(Command::Mute { chat: 1, muted: false })));
    assert!(parse_command("ANSWER\t").is_none());
    assert!(parse_command("DIAL\ta\tb").is_none());
}

#[test]
fn a_stamp_before_1970_counts_days_backwards() {
    assert_eq!(stamp_at(-86_400 * 3), "21:00 -4");
    assert_eq!(clock_at(86_399), "20:59");
}

#[test]
fn the_contacts_answer_resets_then_lists() {
    let lines = contacts_reply(&["Ana", "Bia"]);
    assert_eq!(lines, vec![vec!["CONTACTRESET"], vec!["CONTACT", "Ana"], vec!["CONTACT", "Bia"]]);
    assert_eq!(contacts_reply(&[]), vec![vec!["CONTACTRESET"]]);
}
