//! The life of a voice call, apart from how it travels: what the ui may do when, and what the ui is
//! told. Every line it returns is one line of the protocol the ui reads.

use vstd::prelude::*;
use crate::link::{clock, clock_text};

verus! {

pub type Lines = Vec<Vec<String>>;

/// What can happen to a call, from the ui or from the other side.
#[derive(Debug, Clone)]
pub enum Event {
    /// The ui placed a call.
    Dial(String),
    /// The ui answered the incoming call.
    Answer,
    /// The ui declined, cancelled or ended the call.
    Hangup,
    /// Someone calls us.
    Incoming(String),
    /// The other side picked up the call we placed.
    PeerAnswered,
    /// The other side ended, declined or cancelled the call; `reason` is shown when we were ringing.
    PeerEnded(String),
    /// Nobody picked up in time.
    RingTimeout,
    /// Another device of ours answered or declined the incoming call: it stops ringing, no missed call.
    AnsweredElsewhere,
}

/// An event as plain values.
pub enum EventView {
    Dial(Seq<char>),
    Answer,
    Hangup,
    Incoming(Seq<char>),
    PeerAnswered,
    PeerEnded(Seq<char>),
    RingTimeout,
    AnsweredElsewhere,
}

impl View for Event {
    type V = EventView;

    open spec fn view(&self) -> EventView {
        match self {
            Event::Dial(name) => EventView::Dial(name@),
            Event::Answer => EventView::Answer,
            Event::Hangup => EventView::Hangup,
            Event::Incoming(name) => EventView::Incoming(name@),
            Event::PeerAnswered => EventView::PeerAnswered,
            Event::PeerEnded(reason) => EventView::PeerEnded(reason@),
            Event::RingTimeout => EventView::RingTimeout,
            Event::AnsweredElsewhere => EventView::AnsweredElsewhere,
        }
    }
}

enum Phase {
    Idle,
    Incoming(String),
    Ringing(String),
    Active { name: String, we_called: bool },
}

/// Where a call stands, as plain values: the other side's name and, once it is going, who called.
pub enum CallState {
    Idle,
    Incoming(Seq<char>),
    Ringing(Seq<char>),
    Active(Seq<char>, bool),
}

/// What the call needs from the world besides events.
pub struct Audio {
    pub microphone: bool,
    pub speaker: bool,
}

pub struct Calls {
    phase: Phase,
}

/// The lines for the ui, and whether a call that came in while another was going must be rejected
/// as busy on the wire.
pub struct Outcome {
    pub lines: Lines,
    pub reject_busy: bool,
}

impl View for Calls {
    type V = CallState;

    closed spec fn view(&self) -> CallState {
        phase_state(self.phase)
    }
}

spec fn phase_state(phase: Phase) -> CallState {
    match phase {
        Phase::Idle => CallState::Idle,
        Phase::Incoming(name) => CallState::Incoming(name@),
        Phase::Ringing(name) => CallState::Ringing(name@),
        Phase::Active { name, we_called } => CallState::Active(name@, we_called),
    }
}

/// A call that just ended, for the top of the recents. `kind`: 0 received, 1 missed, 2 outgoing.
pub open spec fn logged(kind: Seq<char>, name: Seq<char>, clock: Seq<char>) -> Seq<Seq<char>> {
    seq!["NEWCALL"@, kind, "1"@, clock, name]
}

/// The message box that says why a call cannot be made, when the machine lacks what it needs.
pub open spec fn missing_audio(audio: Audio) -> Option<Seq<Seq<Seq<char>>>> {
    if !audio.microphone {
        Some(seq![seq!["CALLSTATE"@, "failed"@, "Microfone não encontrado"@,
            "Não é possível fazer ligações porque parece que seu computador não tem um microfone. Experimente conectar um microfone ou, caso já tenha conectado, reinicie o ZapZap."@]])
    } else if !audio.speaker {
        Some(seq![seq!["CALLSTATE"@, "failed"@, "Alto-falante não encontrado"@,
            "Não é possível fazer ligações porque parece que seu computador não tem uma saída de áudio. Experimente conectar um alto-falante ou fones de ouvido."@]])
    } else {
        None
    }
}

/// What `event` does to a call in `state`: the next state, the lines for the ui, and whether a
/// second call must be turned away as busy. `clock` is the time of day a call that ends is logged at.
pub open spec fn step(state: CallState, event: EventView, audio: Audio, clock: Seq<char>) -> (CallState, Seq<Seq<Seq<char>>>, bool) {
    let ended = seq!["CALLSTATE"@, "ended"@];
    match (state, event) {
        (CallState::Idle, EventView::Dial(name)) => match missing_audio(audio) {
            Some(lines) => (CallState::Idle, lines, false),
            None => (CallState::Ringing(name), seq![], false),
        },
        (CallState::Idle, EventView::Incoming(name)) => (CallState::Incoming(name), seq![seq!["INCOMING"@, name]], false),
        (CallState::Incoming(name), EventView::Answer) => match missing_audio(audio) {
            Some(lines) => (CallState::Idle, lines, false),
            None => (CallState::Active(name, false), seq![], false),
        },
        (CallState::Incoming(_), EventView::Hangup) => (CallState::Idle, seq![], false),
        (CallState::Incoming(name), EventView::PeerEnded(_)) => (CallState::Idle, seq![ended, logged("1"@, name, clock)], false),
        (CallState::Incoming(_), EventView::AnsweredElsewhere) => (CallState::Idle, seq![ended], false),
        (CallState::Ringing(name), EventView::PeerAnswered) => (CallState::Active(name, true), seq![seq!["CALLSTATE"@, "active"@]], false),
        (CallState::Ringing(name), EventView::RingTimeout) =>
            (CallState::Idle, seq![seq!["CALLSTATE"@, "ended"@, "Sem resposta"@], logged("2"@, name, clock)], false),
        (CallState::Ringing(name), EventView::PeerEnded(reason)) =>
            (CallState::Idle, seq![seq!["CALLSTATE"@, "ended"@, reason], logged("2"@, name, clock)], false),
        (CallState::Ringing(name), EventView::Hangup) => (CallState::Idle, seq![logged("2"@, name, clock)], false),
        (CallState::Active(name, we_called), EventView::Hangup) =>
            (CallState::Idle, seq![logged(if we_called { "2"@ } else { "0"@ }, name, clock)], false),
        (CallState::Active(name, we_called), EventView::PeerEnded(_)) =>
            (CallState::Idle, seq![ended, logged(if we_called { "2"@ } else { "0"@ }, name, clock)], false),
        // A call while another is going: turned away, the current one goes on.
        (state, EventView::Incoming(_)) => (state, seq![], true),
        // Anything else does not apply in this state (a late timeout, a second hang-up...).
        (state, _) => (state, seq![], false),
    }
}

pub fn line_of(fields: &[&str]) -> (line: Vec<String>)
    ensures
        line.deep_view() == fields@.map_values(|field: &str| field@),
{
    let mut line: Vec<String> = Vec::new();
    let mut i: usize = 0;
    while i < fields.len()
        invariant
            0 <= i <= fields@.len(),
            line.deep_view() == fields@.take(i as int).map_values(|field: &str| field@),
        decreases fields@.len() - i,
    {
        let ghost before = line.deep_view();
        line.push(fields[i].to_owned());
        assert(line.deep_view() =~= before.push(fields@[i as int]@));
        assert(fields@.take(i + 1).map_values(|field: &str| field@) =~= before.push(fields@[i as int]@));
        i = i + 1;
    }
    assert(fields@.take(i as int) =~= fields@);
    line
}

fn logged_line(kind: &str, name: &str, clock: &str) -> (line: Vec<String>)
    ensures
        line.deep_view() == logged(kind@, name@, clock@),
{
    let mut line: Vec<String> = Vec::new();
    line.push("NEWCALL".to_owned());
    line.push(kind.to_owned());
    line.push("1".to_owned());
    line.push(clock.to_owned());
    line.push(name.to_owned());
    assert(line.deep_view() =~= logged(kind@, name@, clock@));
    line
}

fn missing_audio_lines(audio: &Audio) -> (lines: Option<Lines>)
    ensures
        lines is Some == missing_audio(*audio) is Some,
        lines matches Some(l) ==> missing_audio(*audio) == Some(l.deep_view()),
{
    let fields: [&str; 4] = if !audio.microphone {
        ["CALLSTATE", "failed", "Microfone não encontrado",
            "Não é possível fazer ligações porque parece que seu computador não tem um microfone. Experimente conectar um microfone ou, caso já tenha conectado, reinicie o ZapZap."]
    } else if !audio.speaker {
        ["CALLSTATE", "failed", "Alto-falante não encontrado",
            "Não é possível fazer ligações porque parece que seu computador não tem uma saída de áudio. Experimente conectar um alto-falante ou fones de ouvido."]
    } else {
        return None;
    };
    let line = line_of(&fields);
    let mut lines: Lines = Vec::new();
    lines.push(line);
    assert(lines.deep_view() =~~= missing_audio(*audio)->0);
    Some(lines)
}

impl Calls {
    pub fn new() -> (calls: Self)
        ensures
            calls@ == CallState::Idle,
    {
        Calls { phase: Phase::Idle }
    }

    pub fn is_idle(&self) -> (idle: bool)
        ensures
            idle == (self@ == CallState::Idle),
    {
        match self.phase {
            Phase::Idle => true,
            _ => false,
        }
    }

    /// The name of the other side, while a call is going.
    pub fn peer(&self) -> (name: Option<&str>)
        ensures
            match self@ {
                CallState::Idle => name is None,
                CallState::Incoming(n) | CallState::Ringing(n) | CallState::Active(n, _) => name matches Some(p) && p@ == n,
            },
    {
        match &self.phase {
            Phase::Idle => None,
            Phase::Incoming(name) => Some(name.as_str()),
            Phase::Ringing(name) => Some(name.as_str()),
            Phase::Active { name, .. } => Some(name.as_str()),
        }
    }

    /// `handle` with the time of day a call that ends is logged at given.
    pub fn handle_at(&mut self, event: Event, audio: &Audio, clock: &str) -> (out: Outcome)
        ensures
            step(old(self)@, event@, *audio, clock@) == (final(self)@, out.lines.deep_view(), out.reject_busy),
    {
        let mut phase = Phase::Idle;
        std::mem::swap(&mut phase, &mut self.phase);
        let ghost before = phase_state(phase);
        assert(before == old(self)@);
        let mut lines: Lines = Vec::new();
        let mut reject_busy = false;
        match (phase, event) {
            (Phase::Idle, Event::Dial(name)) => match missing_audio_lines(audio) {
                Some(failed) => lines = failed,
                None => self.phase = Phase::Ringing(name),
            },
            (Phase::Idle, Event::Incoming(name)) => {
                lines.push(line_of(&["INCOMING", name.as_str()]));
                self.phase = Phase::Incoming(name);
            }
            (Phase::Incoming(name), Event::Answer) => match missing_audio_lines(audio) {
                Some(failed) => lines = failed,
                None => self.phase = Phase::Active { name, we_called: false },
            },
            (Phase::Incoming(_), Event::Hangup) => {}
            (Phase::Incoming(name), Event::PeerEnded(_)) => {
                lines.push(line_of(&["CALLSTATE", "ended"]));
                lines.push(logged_line("1", name.as_str(), clock));
            }
            (Phase::Incoming(_), Event::AnsweredElsewhere) => lines.push(line_of(&["CALLSTATE", "ended"])),
            (Phase::Ringing(name), Event::PeerAnswered) => {
                lines.push(line_of(&["CALLSTATE", "active"]));
                self.phase = Phase::Active { name, we_called: true };
            }
            (Phase::Ringing(name), Event::RingTimeout) => {
                lines.push(line_of(&["CALLSTATE", "ended", "Sem resposta"]));
                lines.push(logged_line("2", name.as_str(), clock));
            }
            (Phase::Ringing(name), Event::PeerEnded(reason)) => {
                lines.push(line_of(&["CALLSTATE", "ended", reason.as_str()]));
                lines.push(logged_line("2", name.as_str(), clock));
            }
            (Phase::Ringing(name), Event::Hangup) => lines.push(logged_line("2", name.as_str(), clock)),
            (Phase::Active { name, we_called }, Event::Hangup) => lines.push(logged_line(if we_called { "2" } else { "0" }, name.as_str(), clock)),
            (Phase::Active { name, we_called }, Event::PeerEnded(_)) => {
                lines.push(line_of(&["CALLSTATE", "ended"]));
                lines.push(logged_line(if we_called { "2" } else { "0" }, name.as_str(), clock));
            }
            (phase, Event::Incoming(_)) => {
                reject_busy = true;
                self.phase = phase;
            }
            (phase, _) => self.phase = phase,
        }
        assert(step(before, event@, *audio, clock@).1 =~~= lines.deep_view());
        Outcome { lines, reject_busy }
    }

    /// What `event` does to the call; a call that ends is logged at the time of day now.
    pub fn handle(&mut self, event: Event, audio: &Audio) -> (out: Outcome)
        ensures
            exists|unix_seconds: int| 0 <= unix_seconds <= i64::MAX &&
                step(old(self)@, event@, *audio, #[trigger] clock_text(unix_seconds)) == (final(self)@, out.lines.deep_view(), out.reject_busy),
    {
        let now = clock();
        self.handle_at(event, audio, now.as_str())
    }
}

impl Default for Calls {
    fn default() -> (calls: Self)
        ensures
            calls@ == CallState::Idle,
    {
        Calls::new()
    }
}

impl Default for Outcome {
    fn default() -> (out: Self)
        ensures
            out.lines@.len() == 0,
            !out.reject_busy,
    {
        Outcome { lines: Vec::new(), reject_busy: false }
    }
}


/// Whether `s` holds no tab and no line break: it can stand as a field of a line of the protocol.
pub open spec fn clean(s: Seq<char>) -> bool {
    !s.contains('\t') && !s.contains('\n')
}

/// Whether the name a call state keeps is clean.
pub open spec fn state_clean(state: CallState) -> bool {
    match state {
        CallState::Idle => true,
        CallState::Incoming(name) => clean(name),
        CallState::Ringing(name) => clean(name),
        CallState::Active(name, _) => clean(name),
    }
}

/// Whether the name or reason an event carries is clean.
pub open spec fn event_clean(event: EventView) -> bool {
    match event {
        EventView::Dial(name) => clean(name),
        EventView::Incoming(name) => clean(name),
        EventView::PeerEnded(reason) => clean(reason),
        _ => true,
    }
}

/// The time of day a call is logged at is clean.
pub proof fn lemma_clock_clean(unix_seconds: int)
    ensures
        clean(clock_text(unix_seconds)),
{
    let t = clock_text(unix_seconds);
    let day = (unix_seconds + crate::link::BRASILIA_OFFSET_SECONDS) % 86400;
    assert(0 <= day < 86400);
    assert(0 <= day / 3600 < 24 && 0 <= day % 3600 / 60 < 60);
    assert(t.len() == 5);
    assert forall|i: int| 0 <= i < 5 implies t[i] != '\t' && t[i] != '\n' by {
        if i == 0 { assert(0 <= day / 3600 / 10 <= 2); }
        if i == 3 { assert(0 <= day % 3600 / 60 / 10 <= 5); }
    }
}

/// No line a call sends can break the protocol: when the names and reasons that come in, the
/// name the state keeps and the time of day are clean, every field of every line is, and so is
/// the name the next state keeps.
pub proof fn lemma_step_clean(state: CallState, event: EventView, audio: Audio, clock: Seq<char>)
    requires
        state_clean(state),
        event_clean(event),
        clean(clock),
    ensures
        state_clean(step(state, event, audio, clock).0),
        forall|i: int, j: int| 0 <= i < step(state, event, audio, clock).1.len() && 0 <= j < step(state, event, audio, clock).1[i].len()
            ==> clean(#[trigger] step(state, event, audio, clock).1[i][j]),
{
    reveal_strlit("CALLSTATE");
    reveal_strlit("ended");
    reveal_strlit("active");
    reveal_strlit("INCOMING");
    reveal_strlit("NEWCALL");
    reveal_strlit("Sem resposta");
    reveal_strlit("failed");
    reveal_strlit("Microfone não encontrado");
    reveal_strlit("Alto-falante não encontrado");
    reveal_strlit("Não é possível fazer ligações porque parece que seu computador não tem um microfone. Experimente conectar um microfone ou, caso já tenha conectado, reinicie o ZapZap.");
    reveal_strlit("Não é possível fazer ligações porque parece que seu computador não tem uma saída de áudio. Experimente conectar um alto-falante ou fones de ouvido.");
    reveal_strlit("0");
    reveal_strlit("1");
    reveal_strlit("2");
}

/// How a call is logged in the recents depends on how it went, not on who ended it: a call that
/// came in and we answered is a received one ("0"), one we placed is an outgoing one ("2") however
/// it ends, and one that came in and was never answered is a missed one ("1").
pub proof fn lemma_call_logged_by_how_it_went(name: Seq<char>, reason: Seq<char>, audio: Audio, clock: Seq<char>)
    requires
        audio.microphone && audio.speaker,
    ensures
        ({
            let ended = seq!["CALLSTATE"@, "ended"@];
            let ringing_here = step(CallState::Idle, EventView::Incoming(name), audio, clock).0;
            let answered = step(ringing_here, EventView::Answer, audio, clock).0;
            let placed = step(CallState::Idle, EventView::Dial(name), audio, clock).0;
            let talking = step(placed, EventView::PeerAnswered, audio, clock).0;
            &&& answered == CallState::Active(name, false)
            &&& step(answered, EventView::Hangup, audio, clock).1 == seq![logged("0"@, name, clock)]
            &&& step(answered, EventView::PeerEnded(reason), audio, clock).1 == seq![ended, logged("0"@, name, clock)]
            &&& talking == CallState::Active(name, true)
            &&& step(talking, EventView::Hangup, audio, clock).1 == seq![logged("2"@, name, clock)]
            &&& step(talking, EventView::PeerEnded(reason), audio, clock).1 == seq![ended, logged("2"@, name, clock)]
            &&& step(placed, EventView::Hangup, audio, clock).1 == seq![logged("2"@, name, clock)]
            &&& step(ringing_here, EventView::PeerEnded(reason), audio, clock).1 == seq![ended, logged("1"@, name, clock)]
        }),
{
}

/// Who ends a going call does not change how it is logged: hanging up here and the other side
/// ending log the same line.
pub proof fn lemma_going_call_logged_alike(name: Seq<char>, we_called: bool, reason: Seq<char>, audio: Audio, clock: Seq<char>)
    ensures
        step(CallState::Active(name, we_called), EventView::Hangup, audio, clock).1.last()
            == step(CallState::Active(name, we_called), EventView::PeerEnded(reason), audio, clock).1.last(),
{
}

} // verus!
