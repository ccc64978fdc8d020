use zapzap::call::{Audio, CallState, Calls, Event, Outcome};

const FINE: Audio = Audio { microphone: true, speaker: true };

fn first(out: &Outcome) -> Vec<&str> {
    out.lines.first().map(|line| line.iter().map(String::as_str).collect()).unwrap_or_default()
}

#[test]
fn a_call_we_place_rings_then_connects_and_is_logged_as_outgoing() {
    let mut calls = Calls::new();
    assert!(calls.handle(Event::Dial("Mãe".into()), &FINE).lines.is_empty());
    assert_eq!(calls.peer(), Some("Mãe"));
    assert_eq!(first(&calls.handle(Event::PeerAnswered, &FINE)), ["CALLSTATE", "active"]);
    let ended = calls.handle(Event::Hangup, &FINE);
    assert_eq!(&ended.lines[0][..3], ["NEWCALL", "2", "1"]);
    assert!(calls.is_idle());
}

#[test]
fn nobody_answering_ends_the_call_with_a_reason_and_logs_it() {
    let mut calls = Calls::new();
    calls.handle(Event::Dial("Bruno".into()), &FINE);
    let out = calls.handle(Event::RingTimeout, &FINE);
    assert_eq!(out.lines[0], ["CALLSTATE", "ended", "Sem resposta"]);
    assert_eq!(out.lines[1][1], "2");
    assert!(calls.is_idle());
}

#[test]
fn a_busy_peer_is_reported_with_its_reason() {
    let mut calls = Calls::new();
    calls.handle(Event::Dial("Bruno".into()), &FINE);
    assert_eq!(calls.handle(Event::PeerEnded("Ocupado".into()), &FINE).lines[0], ["CALLSTATE", "ended", "Ocupado"]);
}

#[test]
fn an_incoming_call_that_stops_ringing_is_a_missed_call() {
    let mut calls = Calls::new();
    assert_eq!(first(&calls.handle(Event::Incoming("Mãe".into()), &FINE)), ["INCOMING", "Mãe"]);
    let out = calls.handle(Event::PeerEnded(String::new()), &FINE);
    assert_eq!(out.lines[0], ["CALLSTATE", "ended"]);
    assert_eq!(&out.lines[1][..3], ["NEWCALL", "1", "1"]);
    assert!(calls.is_idle());
}

#[test]
fn an_incoming_call_taken_by_another_device_is_not_missed() {
    let mut calls = Calls::new();
    calls.handle(Event::Incoming("Mãe".into()), &FINE);
    let out = calls.handle(Event::AnsweredElsewhere, &FINE);
    assert_eq!(out.lines, [["CALLSTATE", "ended"]]);
    assert!(calls.is_idle());
}

#[test]
fn an_answered_incoming_call_is_logged_as_received() {
    let mut calls = Calls::new();
    calls.handle(Event::Incoming("Ana".into()), &FINE);
    assert!(calls.handle(Event::Answer, &FINE).lines.is_empty());
    assert_eq!(calls.handle(Event::Hangup, &FINE).lines[0][1], "0");
}

#[test]
fn a_second_call_is_turned_away_without_disturbing_the_first() {
    let mut calls = Calls::new();
    calls.handle(Event::Dial("Mãe".into()), &FINE);
    let out = calls.handle(Event::Incoming("Ana".into()), &FINE);
    assert!(out.reject_busy && out.lines.is_empty());
    assert_eq!(calls.peer(), Some("Mãe"));
}

#[test]
fn without_a_microphone_nothing_rings_and_the_ui_is_told_why() {
    let mut calls = Calls::new();
    let out = calls.handle(Event::Dial("Mãe".into()), &Audio { microphone: false, speaker: true });
    assert_eq!(&out.lines[0][..3], ["CALLSTATE", "failed", "Microfone não encontrado"]);
    assert!(calls.is_idle());
    calls.handle(Event::Incoming("Ana".into()), &FINE);
    let out = calls.handle(Event::Answer, &Audio { microphone: true, speaker: false });
    assert_eq!(out.lines[0][2], "Alto-falante não encontrado");
    assert!(calls.is_idle());
}

#[test]
fn late_or_repeated_events_change_nothing() {
    let mut calls = Calls::new();
    assert!(calls.handle(Event::RingTimeout, &FINE).lines.is_empty());
    assert!(calls.handle(Event::Hangup, &FINE).lines.is_empty());
    calls.handle(Event::Dial("Mãe".into()), &FINE);
    assert!(calls.handle(Event::Answer, &FINE).lines.is_empty());
    assert_eq!(calls.peer(), Some("Mãe"));
}

#[test]
fn call_no_field_can_break_the_line_format() {
    let mut calls = Calls::new();
    let out = calls.handle(Event::Dial("x".into()), &Audio { microphone: false, speaker: true });
    assert!(out.lines.iter().flatten().all(|field| !field.contains('\t') && !field.contains('\n')));
}

#[test]
fn a_call_that_ends_is_logged_at_the_given_time() {
    let mut calls = Calls::new();
    calls.handle_at(Event::Dial("Ana".into()), &FINE, "10:00");
    let out = calls.handle_at(Event::Hangup, &FINE, "10:05");
    assert_eq!(out.lines, [["NEWCALL", "2", "1", "10:05", "Ana"]]);
}

#[test]
fn an_outgoing_call_that_connects_and_ends_from_the_other_side_is_logged_as_outgoing() {
    let mut calls = Calls::new();
    calls.handle_at(Event::Dial("Ana".into()), &FINE, "09:00");
    calls.handle_at(Event::PeerAnswered, &FINE, "09:00");
    let out = calls.handle_at(Event::PeerEnded("x".into()), &FINE, "09:30");
    assert_eq!(out.lines, vec![vec!["CALLSTATE", "ended"], vec!["NEWCALL", "2", "1", "09:30", "Ana"]]);
    assert!(calls.is_idle());
}

#[test]
fn a_declined_incoming_call_says_nothing() {
    let mut calls = Calls::new();
    calls.handle_at(Event::Incoming("Ana".into()), &FINE, "09:00");
    let out = calls.handle_at(Event::Hangup, &FINE, "09:00");
    assert!(out.lines.is_empty() && !out.reject_busy);
    assert!(calls.is_idle());
    assert_eq!(calls.peer(), None);
    let _ = CallState::Idle;
}
