//! The demonstration core's decisions: what each command of the ui is answered with, what is
//! scheduled for later (a sent message is marked delivered, then read, then answered after a
//! "typing…" presence), the two pages of older messages, the conversations opened for contacts,
//! and the pretend contacts that answer, are busy or ignore a call. The waiting for commands and
//! for the clock stays outside: it hands each command, and each moment something is due, to
//! `demo_step`.

use vstd::prelude::*;
use crate::call::{Audio, Calls, CallState, Event, EventView, line_of, step};
use crate::contacts::{ContactBook, matching, names_of};
use crate::demo::{CONTACTS, UI_CONTACTS, peer_reaction, reaction_to};
use crate::link::{Command, CommandView, clock_at, clock_text, stamp_at, stamp_text, contacts_reply, contacts_lines};
use crate::text::{decimal, push_decimal, string_of};

verus! {

/// When a sent message is marked delivered, read, answered (ms after it was sent).
pub const DELIVERED_AFTER_MS: u64 = 500;
pub const READ_AFTER_MS: u64 = 1200;
pub const REPLY_AFTER_MS: u64 = 2600;
/// How long an incoming call rings before the caller gives up (ms).
pub const MISSED_AFTER_MS: u64 = 25000;
/// When the pretend incoming call comes, after the start (ms).
pub const INCOMING_AFTER_MS: u64 = 20000;
/// The conversations of the demonstration before any opened for a contact.
pub const FIRST_EXTRA_CHAT: usize = 8;

/// Something scheduled: a line for the ui, or an event for the call.
pub enum Due {
    Line(Vec<String>),
    Call(Event),
}

pub enum DueView {
    Line(Seq<Seq<char>>),
    Call(EventView),
}

pub open spec fn due_view(d: (u64, Due)) -> (u64, DueView) {
    (d.0, match d.1 {
        Due::Line(line) => DueView::Line(line.deep_view()),
        Due::Call(event) => DueView::Call(event@),
    })
}

pub open spec fn dues_view(d: Seq<(u64, Due)>) -> Seq<(u64, DueView)> {
    d.map_values(|x: (u64, Due)| due_view(x))
}

/// What the demonstration keeps: the call, the conversations opened for contacts (by name), the
/// pages of older messages each conversation has given, how many messages were sent, the address
/// book, and what is scheduled (when, in ms, and what).
pub struct Demo {
    pub calls: Calls,
    pub extra: Vec<String>,
    pub pages: Vec<u8>,
    pub sent: u64,
    pub book: ContactBook,
    pub due: Vec<(u64, Due)>,
}

/// What comes in: a command of the ui, or the moment something was due.
pub enum DemoInput {
    Command(Command),
    Tick,
}

impl Demo {
    pub open spec fn wf(&self) -> bool {
        self.pages@.len() == 64 && self.book.wf()
    }

    /// The demonstration at `now_ms`: the contacts in the book, and a call coming in 20 s later.
    pub fn new(now_ms: u64) -> (demo: Self)
        requires
            now_ms <= u64::MAX - INCOMING_AFTER_MS,
        ensures
            demo.wf(),
            demo.calls@ == CallState::Idle,
            demo.extra@.len() == 0,
            demo.sent == 0,
            forall|c: int| 0 <= c < 64 ==> demo.pages@[c] == 0,
            dues_view(demo.due@) == seq![((now_ms + INCOMING_AFTER_MS) as u64, DueView::Call(EventView::Incoming("Mãe"@)))],
    {
        let mut book = ContactBook::new();
        let mut i: usize = 0;
        while i < CONTACTS.len()
            invariant
                book.wf(),
            decreases CONTACTS.len() - i,
        {
            book.insert(CONTACTS[i]);
            i = i + 1;
        }
        let mut pages: Vec<u8> = Vec::new();
        let mut k: usize = 0;
        while k < 64
            invariant
                0 <= k <= 64,
                pages@.len() == k,
                forall|c: int| 0 <= c < k ==> pages@[c] == 0,
            decreases 64 - k,
        {
            pages.push(0);
            k = k + 1;
        }
        let mut due: Vec<(u64, Due)> = Vec::new();
        due.push((now_ms + INCOMING_AFTER_MS, Due::Call(Event::Incoming("Mãe".to_owned()))));
        assert(dues_view(due@) =~= seq![((now_ms + INCOMING_AFTER_MS) as u64, DueView::Call(EventView::Incoming("Mãe"@)))]);
        Demo { calls: Calls::new(), extra: Vec::new(), pages, sent: 0, book, due }
    }

    /// When the next thing is due, if anything is.
    pub fn next_due(&self) -> (at: Option<u64>)
        ensures
            match at {
                Some(t) => exists|i: int| 0 <= i < self.due@.len() && self.due@[i].0 == t
                    && forall|j: int| 0 <= j < self.due@.len() ==> t <= #[trigger] self.due@[j].0,
                None => self.due@.len() == 0,
            },
    {
        let mut best: Option<u64> = None;
        let mut i: usize = 0;
        while i < self.due.len()
            invariant
                0 <= i <= self.due@.len(),
                match best {
                    Some(t) => exists|k: int| 0 <= k < i && self.due@[k].0 == t
                        && forall|j: int| 0 <= j < i ==> t <= #[trigger] self.due@[j].0,
                    None => i == 0,
                },
            decreases self.due@.len() - i,
        {
            let t = self.due[i].0;
            best = match best {
                Some(b) => if t < b { Some(t) } else { Some(b) },
                None => Some(t),
            };
            i = i + 1;
        }
        best
    }
}

/// `prefix` followed by `n` in decimal.
pub open spec fn tagged(prefix: char, n: nat) -> Seq<char> {
    seq![prefix] + decimal(n)
}

fn tagged_text(prefix: char, n: u64) -> (text: String)
    ensures
        text@ == tagged(prefix, n as nat),
{
    let mut out: Vec<char> = Vec::new();
    out.push(prefix);
    push_decimal(n, &mut out);
    assert(out@ =~= tagged(prefix, n as nat));
    string_of(out.as_slice())
}

/// What a message sent (the `n`-th) to conversation `chat` schedules: delivered after 0.5 s, read
/// after 1.2 s, "digitando…" after 1.1 s, "online" after 2.9 s, and at 2.6 s the automatic answer,
/// quoting `quoted` (empty: none).
pub open spec fn sent_dues(now: u64, chat: usize, n: nat, quoted: Seq<char>, clock: Seq<char>) -> Seq<(u64, DueView)> {
    let c = decimal(chat as nat);
    seq![
        ((now + DELIVERED_AFTER_MS) as u64, DueView::Line(seq!["DELIVERED"@, c])),
        ((now + READ_AFTER_MS) as u64, DueView::Line(seq!["READ"@, c])),
        ((now + REPLY_AFTER_MS - 1500) as u64, DueView::Line(seq!["PRESENCE"@, c, "digitando…"@])),
        ((now + REPLY_AFTER_MS + 300) as u64, DueView::Line(seq!["PRESENCE"@, c, "online"@])),
        ((now + REPLY_AFTER_MS) as u64, DueView::Line(seq!["MSG"@, c, "0"@, "0"@, clock, tagged('r', n), quoted,
            "Recebido! (resposta automática do modo de demonstração)"@])),
    ]
}

/// Line `n` (0..6) of page `page` of older messages of `chat`, dated a week per page back from two
/// days ago.
pub open spec fn past_line(chat: usize, page: int, n: int, unix_seconds: int) -> Seq<Seq<char>> {
    let number = page * 6 + n;
    seq!["PAST"@, decimal(chat as nat), if number % 3 == 0 { "1"@ } else { "0"@ }, "1"@,
        stamp_text(unix_seconds - (page * 7 + 2) * 86400),
        "old"@ + decimal(chat as nat) + seq!['_'] + decimal(number as nat), Seq::<char>::empty(),
        "Mensagem antiga "@ + decimal((number + 1) as nat)]
}

/// The answer to `OLDER` for `chat` on page `page`: its six messages newest first (none past the
/// second page), then whether more are left.
pub open spec fn older_lines(chat: usize, page: int, unix_seconds: int) -> Seq<Seq<Seq<char>>> {
    (if page < 2 { Seq::new(6, |k: int| past_line(chat, page, 5 - k, unix_seconds)) } else { Seq::empty() })
        + seq![seq!["PASTEND"@, decimal(chat as nat), if page < 1 { "1"@ } else { "0"@ }]]
}

/// Where `name` is among the conversations opened for contacts (or where it goes).
pub open spec fn extra_index(extra: Seq<Seq<char>>, name: Seq<char>) -> int
    decreases extra.len(),
{
    if extra.len() == 0 {
        0
    } else if extra[0] == name {
        0
    } else {
        1 + extra_index(extra.drop_first(), name)
    }
}

/// Whether a scheduled event is one of those the other side of a call had planned.
pub open spec fn peer_plan(d: (u64, DueView)) -> bool {
    d.1 matches DueView::Call(e) && (e is PeerAnswered || e is PeerEnded || e is RingTimeout)
}

/// Ready and waiting: what of `items` is due at `now`, and the rest, each in order.
pub open spec fn split_due(items: Seq<(u64, DueView)>, now: u64) -> (Seq<(u64, DueView)>, Seq<(u64, DueView)>)
    decreases items.len(),
{
    if items.len() == 0 {
        (Seq::empty(), Seq::empty())
    } else {
        let (ready, waiting) = split_due(items.drop_last(), now);
        if items.last().0 <= now { (ready.push(items.last()), waiting) } else { (ready, waiting.push(items.last())) }
    }
}

/// What firing `items` in order does: the call's state, the lines for the ui, and what is scheduled
/// anew (a call that comes in and is not turned away is given up by the caller 25 s later).
pub open spec fn fired(calls: CallState, items: Seq<(u64, DueView)>, audio: Audio, clock: Seq<char>, now: u64)
    -> (CallState, Seq<Seq<Seq<char>>>, Seq<(u64, DueView)>)
    decreases items.len(),
{
    if items.len() == 0 {
        (calls, Seq::empty(), Seq::empty())
    } else {
        let (state, lines, added) = fired(calls, items.drop_last(), audio, clock, now);
        match items.last().1 {
            DueView::Line(line) => (state, lines.push(line), added),
            DueView::Call(event) => {
                let (next, out, busy) = step(state, event, audio, clock);
                (next, lines + out, if event is Incoming && !busy {
                    added.push(((now + MISSED_AFTER_MS) as u64, DueView::Call(EventView::PeerEnded(Seq::empty()))))
                } else { added })
            },
        }
    }
}

fn line_text(line: &[&str]) -> (out: Vec<String>)
    ensures
        out.deep_view() == line@.map_values(|field: &str| field@),
{
    line_of(line)
}

impl Demo {
    /// Fires what is due at `now_ms`, in the order it was scheduled.
    #[verifier::rlimit(60)]
    pub fn fire_due(&mut self, now_ms: u64, unix_seconds: i64, audio: &Audio) -> (lines: Vec<Vec<String>>)
        requires
            old(self).wf(),
            now_ms <= u64::MAX - MISSED_AFTER_MS,
            unix_seconds >= i64::MIN + 10800,
        ensures
            final(self).wf(),
            ({
                let (ready, waiting) = split_due(dues_view(old(self).due@), now_ms);
                let (state, out, added) = fired(old(self).calls@, ready, *audio, clock_text(unix_seconds as int), now_ms);
                &&& lines.deep_view() == out
                &&& final(self).calls@ == state
                &&& dues_view(final(self).due@) == waiting + added
            }),
            final(self).extra == old(self).extra && final(self).pages == old(self).pages,
            final(self).sent == old(self).sent && final(self).book == old(self).book,
    {
        let clock = clock_at(unix_seconds);
        let ghost all = dues_view(self.due@);
        let mut items = Vec::new();
        std::mem::swap(&mut items, &mut self.due);
        let mut waiting: Vec<(u64, Due)> = Vec::new();
        let mut added: Vec<(u64, Due)> = Vec::new();
        let mut lines: Vec<Vec<String>> = Vec::new();
        let ghost mut k: int = 0;
        assert(all.take(0) =~= Seq::<(u64, DueView)>::empty());
        while items.len() > 0
            invariant
                0 <= k <= all.len(),
                dues_view(items@) == all.skip(k),
                all == dues_view(old(self).due@),
                now_ms <= u64::MAX - MISSED_AFTER_MS,
                clock@ == clock_text(unix_seconds as int),
                dues_view(waiting@) == split_due(all.take(k), now_ms).1,
                ({
                    let (state, out, more) = fired(old(self).calls@, split_due(all.take(k), now_ms).0, *audio, clock@, now_ms);
                    &&& lines.deep_view() == out
                    &&& self.calls@ == state
                    &&& dues_view(added@) == more
                }),
                self.extra == old(self).extra && self.pages == old(self).pages,
                self.sent == old(self).sent && self.book == old(self).book,
            decreases items@.len(),
        {
            let ghost before_items = items@;
            assert(dues_view(items@).len() == items@.len());
            assert(k < all.len());
            let item = items.remove(0);
            proof {
                assert(dues_view(before_items)[0] == due_view(before_items[0]));
                assert(all.skip(k)[0] == due_view(item));
                assert(all.take(k + 1).drop_last() =~= all.take(k));
                assert(all.take(k + 1).last() == due_view(item));
                assert forall|i: int| 0 <= i < items@.len() implies #[trigger] dues_view(items@)[i] == all.skip(k + 1)[i] by {
                    assert(items@[i] == before_items[i + 1]);
                    assert(dues_view(before_items)[i + 1] == all.skip(k)[i + 1]);
                }
                assert(dues_view(items@) =~= all.skip(k + 1));
                let r = split_due(all.take(k), now_ms);
                let dv = due_view(item);
                assert(split_due(all.take(k + 1), now_ms) == (if dv.0 <= now_ms { (r.0.push(dv), r.1) } else { (r.0, r.1.push(dv)) }));
                assert(r.0.push(dv).drop_last() =~= r.0);
            }
            let (at, what) = item;
            if at <= now_ms {
                match what {
                    Due::Line(line) => {
                        let ghost before = lines.deep_view();
                        lines.push(line);
                        assert(lines.deep_view() =~~= before.push(line.deep_view()));
                    },
                    Due::Call(event) => {
                        let ghost ev = event@;
                        let ringing_in = match event { Event::Incoming(_) => true, _ => false };
                        let out = self.calls.handle_at(event, audio, clock.as_str());
                        let ghost before = lines.deep_view();
                        let mut more = out.lines;
                        let ghost extra_lines = more.deep_view();
                        lines.append(&mut more);
                        assert(lines.deep_view() =~~= before + extra_lines);
                        if ringing_in && !out.reject_busy {
                            let ghost before_added = dues_view(added@);
                            added.push((now_ms + MISSED_AFTER_MS, Due::Call(Event::PeerEnded(String::new()))));
                            assert(dues_view(added@) =~= before_added.push(((now_ms + MISSED_AFTER_MS) as u64,
                                DueView::Call(EventView::PeerEnded(Seq::empty())))));
                        }
                    },
                }
            } else {
                let ghost before_waiting = dues_view(waiting@);
                waiting.push((at, what));
                assert(dues_view(waiting@) =~= before_waiting.push(due_view((at, what))));
            }
            proof { k = k + 1; }
        }
        assert(all.take(k) =~= all);
        let ghost w = dues_view(waiting@);
        let ghost a = dues_view(added@);
        waiting.append(&mut added);
        assert(dues_view(waiting@) =~= w + a);
        self.due = waiting;
        lines
    }
}


/// The scheduled items kept when we answer or hang up: what the other side planned for the call
/// goes.
pub open spec fn without_plans(items: Seq<(u64, DueView)>) -> Seq<(u64, DueView)>
    decreases items.len(),
{
    if items.len() == 0 {
        Seq::empty()
    } else if peer_plan(items.last()) {
        without_plans(items.drop_last())
    } else {
        without_plans(items.drop_last()).push(items.last())
    }
}

/// A hex digit.
pub open spec fn hex_digit(n: int) -> char {
    if n < 10 { (48 + n) as char } else { (87 + n) as char }
}

/// A byte as two hex digits.
pub open spec fn hex2(n: int) -> Seq<char> {
    seq![hex_digit(n / 16), hex_digit(n % 16)]
}

/// Pixel (`column`, `row`) of the stand-in preview picture, a soft gradient, as RGB565.
pub open spec fn thumb_word(row: int, column: int) -> int {
    let r = if 90 + column * 3 < 255 { 90 + column * 3 } else { 255 };
    let g = if 70 + row * 3 + column < 255 { 70 + row * 3 + column } else { 255 };
    let b = 160 - row * 2;
    (r / 8) * 2048 + (g / 4) * 32 + b / 8
}

/// The first `n` pixels of row `row` of the picture in hex, low byte first.
pub open spec fn thumb_hex(row: int, n: int) -> Seq<char>
    decreases n,
{
    if n <= 0 { Seq::empty() } else { thumb_hex(row, n - 1) + hex2(thumb_word(row, n - 1) % 256) + hex2(thumb_word(row, n - 1) / 256) }
}

/// The answer to `THUMB`: a 48x36 picture, row by row.
pub open spec fn thumb_lines(chat: usize, id: Seq<char>) -> Seq<Seq<Seq<char>>> {
    seq![seq!["THUMB"@, decimal(chat as nat), id, "48"@, "36"@]]
        + Seq::new(36, |row: int| seq!["THUMBROW"@, decimal(chat as nat), id, decimal(row as nat), thumb_hex(row, 48)])
}

fn hex_char(n: u32) -> (c: char)
    requires
        n < 16,
    ensures
        c == hex_digit(n as int),
{
    let table: [char; 16] = ['0', '1', '2', '3', '4', '5', '6', '7', '8', '9', 'a', 'b', 'c', 'd', 'e', 'f'];
    table[n as usize]
}

fn row_hex(row: u32) -> (text: String)
    requires
        row < 36,
    ensures
        text@ == thumb_hex(row as int, 48),
{
    let mut out: Vec<char> = Vec::new();
    let mut column: u32 = 0;
    while column < 48
        invariant
            0 <= column <= 48,
            row < 36,
            out@ == thumb_hex(row as int, column as int),
        decreases 48 - column,
    {
        let r: u32 = if 90 + column * 3 < 255 { 90 + column * 3 } else { 255 };
        let g: u32 = if 70 + row * 3 + column < 255 { 70 + row * 3 + column } else { 255 };
        let b: u32 = 160 - row * 2;
        let word: u32 = (r / 8) * 2048 + (g / 4) * 32 + b / 8;
        assert(word == thumb_word(row as int, column as int));
        assert(word < 65536);
        let low = word % 256;
        let high = word / 256;
        out.push(hex_char(low / 16));
        out.push(hex_char(low % 16));
        out.push(hex_char(high / 16));
        out.push(hex_char(high % 16));
        assert(out@ =~= thumb_hex(row as int, column as int + 1));
        column = column + 1;
    }
    string_of(out.as_slice())
}

impl Demo {
    /// What a command of the ui is answered with, and what it schedules.
    #[verifier::spinoff_prover]
    #[verifier::rlimit(100)]
    pub fn handle_command(&mut self, now_ms: u64, unix_seconds: i64, command: Command, audio: &Audio) -> (lines: Vec<Vec<String>>)
        requires
            old(self).wf(),
            now_ms <= u64::MAX - 30000,
            unix_seconds >= i64::MIN + 10800 + 20 * 86400,
            old(self).sent < u64::MAX,
            old(self).extra@.len() < usize::MAX - 16,
        ensures
            final(self).wf(),
            match command@ {
                CommandView::Send { chat, text } => {
                    &&& final(self).sent == old(self).sent + 1
                    &&& lines.deep_view() == seq![seq!["SENT"@, decimal(chat as nat), tagged('s', final(self).sent as nat)]]
                    &&& dues_view(final(self).due@) == dues_view(old(self).due@)
                        + sent_dues(now_ms, chat, final(self).sent as nat, Seq::empty(), clock_text(unix_seconds as int))
                    &&& final(self).calls == old(self).calls && final(self).extra == old(self).extra && final(self).pages == old(self).pages
                },
                CommandView::Reply { chat, id, text } => {
                    &&& final(self).sent == old(self).sent + 1
                    &&& lines.deep_view() == seq![seq!["SENT"@, decimal(chat as nat), tagged('s', final(self).sent as nat)]]
                    &&& dues_view(final(self).due@) == dues_view(old(self).due@)
                        + sent_dues(now_ms, chat, final(self).sent as nat, id, clock_text(unix_seconds as int))
                    &&& final(self).calls == old(self).calls && final(self).extra == old(self).extra && final(self).pages == old(self).pages
                },
                CommandView::Dial { name } => {
                    let (state, out, busy) = step(old(self).calls@, EventView::Dial(name), *audio, clock_text(unix_seconds as int));
                    &&& final(self).calls@ == state
                    &&& lines.deep_view() == out
                    &&& dues_view(final(self).due@) == (if old(self).calls@ == CallState::Idle && state != CallState::Idle {
                        dues_view(old(self).due@).push(((now_ms + reaction_to(name).0) as u64, DueView::Call(reaction_to(name).1)))
                    } else { dues_view(old(self).due@) })
                    &&& final(self).sent == old(self).sent && final(self).extra == old(self).extra && final(self).pages == old(self).pages
                },
                CommandView::Contacts { query } => {
                    let found = matching(names_of(old(self).book@), query);
                    &&& lines.deep_view() == contacts_lines(found.take(if found.len() < UI_CONTACTS { found.len() as int } else { UI_CONTACTS as int }))
                    &&& final(self).calls == old(self).calls && final(self).sent == old(self).sent && final(self).extra == old(self).extra
                    &&& final(self).pages == old(self).pages && dues_view(final(self).due@) == dues_view(old(self).due@)
                },
                CommandView::Older { chat, id } => {
                    let page = if chat < 64 { old(self).pages@[chat as int] as int } else { 2 };
                    &&& lines.deep_view() == older_lines(chat, page, unix_seconds as int)
                    &&& final(self).pages@ == (if chat < 64 { old(self).pages@.update(chat as int,
                        if page < 255 { (page + 1) as u8 } else { 255u8 }) } else { old(self).pages@ })
                    &&& final(self).calls == old(self).calls && final(self).sent == old(self).sent && final(self).extra == old(self).extra
                    &&& dues_view(final(self).due@) == dues_view(old(self).due@)
                },
                CommandView::Thumb { chat, id } => {
                    &&& lines.deep_view() == thumb_lines(chat, id)
                    &&& final(self).calls == old(self).calls && final(self).sent == old(self).sent && final(self).extra == old(self).extra
                    &&& final(self).pages == old(self).pages && dues_view(final(self).due@) == dues_view(old(self).due@)
                },
                CommandView::OpenChat { name } => {
                    let shown = if name.len() == 0 { "Você"@ } else { name };
                    let known = old(self).extra@.map_values(|n: String| n@);
                    let at = extra_index(known, shown);
                    let id = decimal((FIRST_EXTRA_CHAT + at) as nat);
                    &&& lines.deep_view() == seq![seq!["CHAT"@, id, "0"@, Seq::empty(), shown, Seq::empty()], seq!["SHOWCHAT"@, id]]
                    &&& final(self).extra@.map_values(|n: String| n@) == (if at < known.len() { known } else { known.push(shown) })
                    &&& final(self).calls == old(self).calls && final(self).sent == old(self).sent && final(self).pages == old(self).pages
                    &&& dues_view(final(self).due@) == dues_view(old(self).due@)
                },
                CommandView::Answer | CommandView::Hangup => {
                    let event = if command@ is Answer { EventView::Answer } else { EventView::Hangup };
                    let (state, out, busy) = step(old(self).calls@, event, *audio, clock_text(unix_seconds as int));
                    &&& final(self).calls@ == state
                    &&& lines.deep_view() == out
                    &&& dues_view(final(self).due@) == without_plans(dues_view(old(self).due@))
                    &&& final(self).sent == old(self).sent && final(self).extra == old(self).extra && final(self).pages == old(self).pages
                },
                _ => lines@.len() == 0 && final(self).calls == old(self).calls && final(self).sent == old(self).sent
                    && final(self).extra == old(self).extra && final(self).pages == old(self).pages
                    && dues_view(final(self).due@) == dues_view(old(self).due@),
            },
    {
        let clock = clock_at(unix_seconds);
        let mut lines: Vec<Vec<String>> = Vec::new();
        match command {
            Command::Send { chat, text } => {
                self.sent = self.sent + 1;
                self.schedule_answer(now_ms, chat, String::new(), clock.as_str());
                let chat_text = crate::text::decimal_text(chat as u64);
                let sent_text = tagged_text('s', self.sent);
                lines.push(line_text(&["SENT", chat_text.as_str(), sent_text.as_str()]));
                assert(lines.deep_view() =~~= seq![seq!["SENT"@, decimal(chat as nat), tagged('s', self.sent as nat)]]);
            },
            Command::Reply { chat, id, text } => {
                self.sent = self.sent + 1;
                self.schedule_answer(now_ms, chat, id, clock.as_str());
                let chat_text = crate::text::decimal_text(chat as u64);
                let sent_text = tagged_text('s', self.sent);
                lines.push(line_text(&["SENT", chat_text.as_str(), sent_text.as_str()]));
                assert(lines.deep_view() =~~= seq![seq!["SENT"@, decimal(chat as nat), tagged('s', self.sent as nat)]]);
            },
            Command::Dial { name } => {
                let was_idle = self.calls.is_idle();
                let reaction = peer_reaction(name.as_str());
                let out = self.calls.handle_at(Event::Dial(name), audio, clock.as_str());
                if was_idle && self.calls.peer().is_some() {
                    let ghost before = dues_view(self.due@);
                    let (after, event) = reaction;
                    self.due.push((now_ms + after, Due::Call(event)));
                    assert(dues_view(self.due@) =~= before.push(((now_ms + after) as u64, DueView::Call(event@))));
                }
                lines = out.lines;
            },
            Command::Contacts { query } => {
                let found = self.book.search(query.as_str(), UI_CONTACTS);
                lines = contacts_reply(found.as_slice());
            },
            Command::Older { chat, id } => {
                let page: u8 = if chat < 64 {
                    let p = self.pages[chat];
                    self.pages.set(chat, if p < 255 { p + 1 } else { 255 });
                    p
                } else {
                    2
                };
                lines = older_reply(chat, page, unix_seconds);
            },
            Command::Thumb { chat, id } => {
                let chat_text = crate::text::decimal_text(chat as u64);
                lines.push(line_text(&["THUMB", chat_text.as_str(), id.as_str(), "48", "36"]));
                assert(lines.deep_view() =~~= thumb_lines(chat, id@).take(1));
                let mut row: u32 = 0;
                while row < 36
                    invariant
                        0 <= row <= 36,
                        chat_text@ == decimal(chat as nat),
                        lines.deep_view() == thumb_lines(chat, id@).take(row + 1),
                    decreases 36 - row,
                {
                    let row_text = crate::text::decimal_text(row as u64);
                    let hex = row_hex(row);
                    let ghost before = lines.deep_view();
                    let line = line_text(&["THUMBROW", chat_text.as_str(), id.as_str(), row_text.as_str(), hex.as_str()]);
                    assert(line.deep_view() =~~= seq!["THUMBROW"@, decimal(chat as nat), id@, decimal(row as nat), thumb_hex(row as int, 48)]);
                    let ghost lv = line.deep_view();
                    lines.push(line);
                    assert(lines.deep_view() =~~= before.push(lv));
                    assert(thumb_lines(chat, id@)[row + 1] == lv);
                    assert(thumb_lines(chat, id@).take(row + 2) =~~= thumb_lines(chat, id@).take(row + 1).push(lv));
                    assert(lines.deep_view() =~~= thumb_lines(chat, id@).take(row + 2));
                    row = row + 1;
                }
                assert(lines.deep_view() =~~= thumb_lines(chat, id@));
            },
            Command::OpenChat { name } => {
                lines = self.open_chat(name);
            },
            Command::Answer => {
                self.drop_plans();
                let out = self.calls.handle_at(Event::Answer, audio, clock.as_str());
                lines = out.lines;
            },
            Command::Hangup => {
                self.drop_plans();
                let out = self.calls.handle_at(Event::Hangup, audio, clock.as_str());
                lines = out.lines;
            },
            _ => {},
        }
        lines
    }
}


fn same_str(a: &str, b: &str) -> (same: bool)
    ensures
        same == (a@ == b@),
{
    let x = crate::text::chars_of(a);
    let y = crate::text::chars_of(b);
    crate::text::same_chars(x.as_slice(), y.as_slice())
}

fn push_due_line(due: &mut Vec<(u64, Due)>, at: u64, line: Vec<String>)
    ensures
        dues_view(final(due)@) == dues_view(old(due)@).push((at, DueView::Line(line.deep_view()))),
{
    let ghost before = dues_view(due@);
    due.push((at, Due::Line(line)));
    assert(dues_view(due@) =~= before.push((at, DueView::Line(line.deep_view()))));
}

/// Line `n` of page `page` of older messages of `chat`.
fn past_line_text(chat: usize, page: u8, n: u8, unix_seconds: i64) -> (line: Vec<String>)
    requires
        page < 2,
        n < 6,
        unix_seconds >= i64::MIN + 10800 + 20 * 86400,
    ensures
        line.deep_view() == past_line(chat, page as int, n as int, unix_seconds as int),
{
    let number: u64 = page as u64 * 6 + n as u64;
    let chat_text = crate::text::decimal_text(chat as u64);
    let out = if number % 3 == 0 { "1" } else { "0" };
    let stamp = stamp_at(unix_seconds - (page as i64 * 7 + 2) * 86400);
    let mut id: Vec<char> = Vec::new();
    id.push('o');
    id.push('l');
    id.push('d');
    push_decimal(chat as u64, &mut id);
    id.push('_');
    push_decimal(number, &mut id);
    let id_text = string_of(id.as_slice());
    let mut text: Vec<char> = crate::text::chars_of("Mensagem antiga ");
    push_decimal(number + 1, &mut text);
    let text_text = string_of(text.as_slice());
    proof {
        reveal_strlit("old");
        reveal_strlit("Mensagem antiga ");
        assert(id@ =~= "old"@ + decimal(chat as nat) + seq!['_'] + decimal(number as nat));
    }
    let line = line_text(&["PAST", chat_text.as_str(), out, "1", stamp.as_str(), id_text.as_str(), "", text_text.as_str()]);
    proof {
        reveal_strlit("");
    }
    assert(line.deep_view() =~~= past_line(chat, page as int, n as int, unix_seconds as int));
    line
}

/// The answer to `OLDER` for `chat` on page `page`.
fn older_reply(chat: usize, page: u8, unix_seconds: i64) -> (lines: Vec<Vec<String>>)
    requires
        unix_seconds >= i64::MIN + 10800 + 20 * 86400,
    ensures
        lines.deep_view() == older_lines(chat, page as int, unix_seconds as int),
{
    let mut lines: Vec<Vec<String>> = Vec::new();
    if page < 2 {
        let mut k: u8 = 0;
        while k < 6
            invariant
                0 <= k <= 6,
                page < 2,
                unix_seconds >= i64::MIN + 10800 + 20 * 86400,
                lines.deep_view() == Seq::new(k as nat, |j: int| past_line(chat, page as int, 5 - j, unix_seconds as int)),
            decreases 6 - k,
        {
            let ghost before = lines.deep_view();
            let line = past_line_text(chat, page, 5 - k, unix_seconds);
            let ghost lv = line.deep_view();
            lines.push(line);
            assert(lines.deep_view() =~~= before.push(lv));
            assert(Seq::new((k + 1) as nat, |j: int| past_line(chat, page as int, 5 - j, unix_seconds as int))
                =~~= Seq::new(k as nat, |j: int| past_line(chat, page as int, 5 - j, unix_seconds as int)).push(lv));
            assert(lines.deep_view() =~~= Seq::new((k + 1) as nat, |j: int| past_line(chat, page as int, 5 - j, unix_seconds as int)));
            k = k + 1;
        }
    }
    let ghost before = lines.deep_view();
    let chat_text = crate::text::decimal_text(chat as u64);
    lines.push(line_text(&["PASTEND", chat_text.as_str(), if page < 1 { "1" } else { "0" }]));
    assert(lines.deep_view() =~~= older_lines(chat, page as int, unix_seconds as int));
    lines
}

impl Demo {
    /// Schedules what a message sent (the `sent`-th) to `chat` leads to.
    fn schedule_answer(&mut self, now_ms: u64, chat: usize, quoted: String, clock: &str)
        requires
            now_ms <= u64::MAX - 30000,
        ensures
            dues_view(final(self).due@) == dues_view(old(self).due@) + sent_dues(now_ms, chat, old(self).sent as nat, quoted@, clock@),
            final(self).calls == old(self).calls && final(self).extra == old(self).extra && final(self).pages == old(self).pages,
            final(self).sent == old(self).sent && final(self).book == old(self).book,
    {
        let ghost start = dues_view(self.due@);
        let c = crate::text::decimal_text(chat as u64);
        let r = tagged_text('r', self.sent);
        let l1 = line_text(&["DELIVERED", c.as_str()]);
        assert(l1.deep_view() =~~= seq!["DELIVERED"@, c@]);
        let l2 = line_text(&["READ", c.as_str()]);
        assert(l2.deep_view() =~~= seq!["READ"@, c@]);
        let l3 = line_text(&["PRESENCE", c.as_str(), "digitando…"]);
        assert(l3.deep_view() =~~= seq!["PRESENCE"@, c@, "digitando…"@]);
        let l4 = line_text(&["PRESENCE", c.as_str(), "online"]);
        assert(l4.deep_view() =~~= seq!["PRESENCE"@, c@, "online"@]);
        let l5 = line_text(&["MSG", c.as_str(), "0", "0", clock, r.as_str(), quoted.as_str(),
            "Recebido! (resposta automática do modo de demonstração)"]);
        assert(l5.deep_view() =~~= seq!["MSG"@, c@, "0"@, "0"@, clock@, r@, quoted@,
            "Recebido! (resposta automática do modo de demonstração)"@]);
        push_due_line(&mut self.due, now_ms + DELIVERED_AFTER_MS, l1);
        push_due_line(&mut self.due, now_ms + READ_AFTER_MS, l2);
        push_due_line(&mut self.due, now_ms + REPLY_AFTER_MS - 1500, l3);
        push_due_line(&mut self.due, now_ms + REPLY_AFTER_MS + 300, l4);
        push_due_line(&mut self.due, now_ms + REPLY_AFTER_MS, l5);
        assert(dues_view(self.due@) =~~= start + sent_dues(now_ms, chat, self.sent as nat, quoted@, clock@));
    }

    /// Drops what the other side had planned for the call.
    fn drop_plans(&mut self)
        ensures
            dues_view(final(self).due@) == without_plans(dues_view(old(self).due@)),
            final(self).calls == old(self).calls && final(self).extra == old(self).extra && final(self).pages == old(self).pages,
            final(self).sent == old(self).sent && final(self).book == old(self).book,
    {
        let ghost all = dues_view(self.due@);
        let mut items = Vec::new();
        std::mem::swap(&mut items, &mut self.due);
        let mut kept: Vec<(u64, Due)> = Vec::new();
        let ghost mut k: int = 0;
        assert(all.take(0) =~= Seq::<(u64, DueView)>::empty());
        while items.len() > 0
            invariant
                0 <= k <= all.len(),
                dues_view(items@) == all.skip(k),
                dues_view(kept@) == without_plans(all.take(k)),
                self.calls == old(self).calls && self.extra == old(self).extra && self.pages == old(self).pages,
                self.sent == old(self).sent && self.book == old(self).book,
            decreases items@.len(),
        {
            let ghost before_items = items@;
            assert(dues_view(items@).len() == items@.len());
            assert(k < all.len());
            let item = items.remove(0);
            proof {
                assert(dues_view(before_items)[0] == due_view(before_items[0]));
                assert(all.take(k + 1).drop_last() =~= all.take(k));
                assert forall|i: int| 0 <= i < items@.len() implies #[trigger] dues_view(items@)[i] == all.skip(k + 1)[i] by {
                    assert(items@[i] == before_items[i + 1]);
                    assert(dues_view(before_items)[i + 1] == all.skip(k)[i + 1]);
                }
                assert(dues_view(items@) =~= all.skip(k + 1));
            }
            let plan = match &item.1 {
                Due::Call(Event::PeerAnswered) | Due::Call(Event::PeerEnded(_)) | Due::Call(Event::RingTimeout) => true,
                _ => false,
            };
            assert(plan == peer_plan(due_view(item)));
            if !plan {
                let ghost before = dues_view(kept@);
                kept.push(item);
                assert(dues_view(kept@) =~= before.push(due_view(item)));
            }
            proof { k = k + 1; }
        }
        assert(all.take(k) =~= all);
        self.due = kept;
    }

    /// Opens the conversation for a contact that has none (an empty name is ourselves).
    fn open_chat(&mut self, name: String) -> (lines: Vec<Vec<String>>)
        requires
            old(self).extra@.len() < usize::MAX - 16,
        ensures
            ({
                let shown = if name@.len() == 0 { "Você"@ } else { name@ };
                let known = old(self).extra@.map_values(|n: String| n@);
                let at = extra_index(known, shown);
                let id = decimal((FIRST_EXTRA_CHAT + at) as nat);
                &&& lines.deep_view() == seq![seq!["CHAT"@, id, "0"@, Seq::empty(), shown, Seq::empty()], seq!["SHOWCHAT"@, id]]
                &&& final(self).extra@.map_values(|n: String| n@) == (if at < known.len() { known } else { known.push(shown) })
            }),
            final(self).calls == old(self).calls && final(self).sent == old(self).sent && final(self).pages == old(self).pages,
            final(self).due == old(self).due && final(self).book == old(self).book,
    {
        let shown: String = if name.as_str().unicode_len() == 0 { "Você".to_owned() } else { name };
        let ghost known = self.extra@.map_values(|n: String| n@);
        assert(known.skip(0) =~= known);
        let mut i: usize = 0;
        while i < self.extra.len() && !same_str(self.extra[i].as_str(), shown.as_str())
            invariant
                0 <= i <= self.extra@.len(),
                known == self.extra@.map_values(|n: String| n@),
                extra_index(known, shown@) == i + extra_index(known.skip(i as int), shown@),
            decreases self.extra@.len() - i,
        {
            assert(known.skip(i as int).drop_first() =~= known.skip(i + 1));
            i = i + 1;
        }
        if i == self.extra.len() {
            let ghost before = self.extra@;
            self.extra.push(string_of(crate::text::chars_of(shown.as_str()).as_slice()));
            assert(self.extra@.map_values(|n: String| n@) =~= known.push(shown@));
        }
        let id = crate::text::decimal_text((FIRST_EXTRA_CHAT + i) as u64);
        let mut lines: Vec<Vec<String>> = Vec::new();
        lines.push(line_text(&["CHAT", id.as_str(), "0", "", shown.as_str(), ""]));
        lines.push(line_text(&["SHOWCHAT", id.as_str()]));
        proof { reveal_strlit(""); }
        assert(lines.deep_view() =~~= seq![seq!["CHAT"@, id@, "0"@, Seq::empty(), shown@, Seq::empty()], seq!["SHOWCHAT"@, id@]]);
        lines
    }
}

} // verus!
