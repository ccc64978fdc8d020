use zapzap::call::Audio;
use zapzap::demo_loop::Demo;
use zapzap::link::Command;

const AUDIO: Audio = Audio { microphone: true, speaker: true };
const NOW: i64 = 1_789_916_400;

fn fields(lines: &[Vec<String>]) -> Vec<Vec<&str>> {
    lines.iter().map(|line| line.iter().map(String::as_str).collect()).collect()
}

#[test]
fn a_sent_message_is_delivered_then_read_then_answered() {
    let mut demo = Demo::new(0);
    let lines = demo.handle_command(1_000, NOW, Command::Send { chat: 3, text: "oi".to_string() }, &AUDIO);
    assert_eq!(fields(&lines), vec![vec!["SENT", "3", "s1"]]);
    assert_eq!(demo.next_due(), Some(1_500));
    assert_eq!(fields(&demo.fire_due(1_500, NOW, &AUDIO)), vec![vec!["DELIVERED", "3"]]);
    assert_eq!(fields(&demo.fire_due(2_200, NOW, &AUDIO)), vec![vec!["READ", "3"], vec!["PRESENCE", "3", "digitando…"]]);
    let answer = demo.fire_due(3_600, NOW, &AUDIO);
    assert_eq!(answer.len(), 1);
    assert_eq!(answer[0][0], "MSG");
    assert_eq!(answer[0][5], "r1");
    assert_eq!(answer[0][7], "Recebido! (resposta automática do modo de demonstração)");
    assert_eq!(fields(&demo.fire_due(3_900, NOW, &AUDIO)), vec![vec!["PRESENCE", "3", "online"]]);
}

#[test]
fn a_reply_quotes_what_it_answers() {
    let mut demo = Demo::new(0);
    demo.handle_command(0, NOW, Command::Reply { chat: 0, id: "d4".to_string(), text: "ok".to_string() }, &AUDIO);
    let lines = demo.fire_due(2_600, NOW, &AUDIO);
    let answer = lines.iter().find(|line| line[0] == "MSG").expect("the answer");
    assert_eq!(answer[6], "d4");
}

#[test]
fn two_pages_of_older_messages_then_none() {
    let mut demo = Demo::new(0);
    let first = demo.handle_command(0, NOW, Command::Older { chat: 2, id: String::new() }, &AUDIO);
    assert_eq!(first.len(), 7);
    assert_eq!(first[0][5], "old2_5");
    assert_eq!(first[0][7], "Mensagem antiga 6");
    assert_eq!(fields(&first[6..]), vec![vec!["PASTEND", "2", "1"]]);
    let second = demo.handle_command(0, NOW, Command::Older { chat: 2, id: String::new() }, &AUDIO);
    assert_eq!(second[5][5], "old2_6");
    assert_eq!(fields(&second[6..]), vec![vec!["PASTEND", "2", "0"]]);
    let third = demo.handle_command(0, NOW, Command::Older { chat: 2, id: String::new() }, &AUDIO);
    assert_eq!(fields(&third), vec![vec!["PASTEND", "2", "0"]]);
}

#[test]
fn a_contact_without_a_conversation_gets_one_after_the_eight() {
    let mut demo = Demo::new(0);
    let lines = demo.handle_command(0, NOW, Command::OpenChat { name: "Osmar".to_string() }, &AUDIO);
    assert_eq!(fields(&lines), vec![vec!["CHAT", "8", "0", "", "Osmar", ""], vec!["SHOWCHAT", "8"]]);
    let me = demo.handle_command(0, NOW, Command::OpenChat { name: String::new() }, &AUDIO);
    assert_eq!(fields(&me), vec![vec!["CHAT", "9", "0", "", "Você", ""], vec!["SHOWCHAT", "9"]]);
    let again = demo.handle_command(0, NOW, Command::OpenChat { name: "Osmar".to_string() }, &AUDIO);
    assert_eq!(fields(&again)[1], vec!["SHOWCHAT", "8"]);
}

#[test]
fn bruno_is_busy_and_mae_answers() {
    let mut demo = Demo::new(0);
    assert!(demo.handle_command(0, NOW, Command::Dial { name: "Bruno".to_string() }, &AUDIO).is_empty());
    let lines = demo.fire_due(2_500, NOW, &AUDIO);
    assert_eq!(fields(&lines[..1]), vec![vec!["CALLSTATE", "ended", "Ocupado"]]);
    assert_eq!(lines[1][0], "NEWCALL");
    demo.handle_command(3_000, NOW, Command::Dial { name: "Mãe".to_string() }, &AUDIO);
    assert_eq!(fields(&demo.fire_due(5_500, NOW, &AUDIO)), vec![vec!["CALLSTATE", "active"]]);
}

#[test]
fn the_stand_in_preview_has_a_row_for_each_of_its_lines() {
    let mut demo = Demo::new(0);
    let lines = demo.handle_command(0, NOW, Command::Thumb { chat: 1, id: "d30".to_string() }, &AUDIO);
    assert_eq!(fields(&lines[..1]), vec![vec!["THUMB", "1", "d30", "48", "36"]]);
    assert_eq!(lines.len(), 37);
    assert_eq!(lines[1][4].len(), 48 * 4);
    // Column 0 of row 0: r 90, g 70, b 160 give 0x5a34, low byte first.
    assert_eq!(&lines[1][4][..4], "345a");
}

#[test]
fn the_contacts_that_match_are_sent_on_request() {
    let mut demo = Demo::new(0);
    let lines = demo.handle_command(0, NOW, Command::Contacts { query: "airton".to_string() }, &AUDIO);
    assert_eq!(lines[0][0], "CONTACTRESET");
    assert_eq!(lines.len(), 3);
}
