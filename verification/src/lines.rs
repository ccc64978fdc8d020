//! The lines the core process sends the window: what each one says, read into a `UiLine`, and what
//! it does to the screen. Fields are separated by tabs and the last one is free text; a line whose
//! fields do not read is ignored.

use vstd::prelude::*;
use vstd::utf8::encode_utf8;
use crate::chat::Chat;
use crate::items::CallKind;
use crate::link::{all_digits, digits_value, number, parse_number};
use crate::qr::{Qr, encode, MAX_BYTES};
use crate::text::{fit, byte_len, chars_of, string_of, same_chars, slice_chars};

verus! {

/// The longest notice the screen keeps, in bytes.
pub const NOTICE_CAPACITY: usize = 128;

/// What the window shows: a notice on an otherwise empty screen, the pairing code, or the chat.
pub enum Screen {
    Notice,
    Login(Qr),
    Chat,
}

/// The notice of the notice screen.
pub struct Notice {
    text: String,
}

/// The notice kept of `text`: all of it within `NOTICE_CAPACITY` bytes; cut there when the cut
/// falls between two characters; else nothing.
pub open spec fn notice_of(text: Seq<char>) -> Seq<char> {
    if byte_len(text) <= NOTICE_CAPACITY {
        text
    } else if byte_len(fit(text, NOTICE_CAPACITY as nat)) == NOTICE_CAPACITY {
        fit(text, NOTICE_CAPACITY as nat)
    } else {
        Seq::empty()
    }
}

impl Notice {
    pub fn new() -> (notice: Notice)
        ensures
            notice.shown() == Seq::<char>::empty(),
    {
        Notice { text: String::new() }
    }

    /// What the notice says.
    pub closed spec fn shown(&self) -> Seq<char> {
        self.text@
    }

    pub fn set(&mut self, text: &str)
        ensures
            final(self).shown() == notice_of(text@),
    {
        let chars = chars_of(text);
        let kept = crate::text::fit_chars(chars.as_slice(), NOTICE_CAPACITY);
        proof {
            crate::text::lemma_fit(chars@, NOTICE_CAPACITY as nat);
            if byte_len(chars@) > NOTICE_CAPACITY {
                crate::text::lemma_fit(chars@.drop_last(), NOTICE_CAPACITY as nat);
            }
        }
        if kept.len() == chars.len() {
            assert(chars@.take(chars@.len() as int) =~= chars@);
            self.text = string_of(chars.as_slice());
        } else if crate::text::bytes_of(kept.as_slice()) == NOTICE_CAPACITY {
            self.text = string_of(kept.as_slice());
        } else {
            self.text = String::new();
        }
    }

    pub fn text(&self) -> (text: &str)
        ensures
            text@ == self.shown(),
    {
        self.text.as_str()
    }
}

/// What a line from the core says.
pub enum UiLine {
    /// `QR` payload: a pairing code.
    Qr(Vec<u8>),
    /// `NOTICE` text: a message on an otherwise empty screen.
    Notice(String),
    /// `RESET`: forget every conversation and message.
    Reset,
    /// `OPEN`: show the chat screen.
    Open,
    /// `DELIVERED` chat: the other side's phone got what we sent.
    Delivered(usize),
    /// `READ` chat: the other side read what we sent.
    Read(usize),
    /// `STATUS` text: a line of bad news.
    Status(String),
    /// `CHAT` id unread time name status: define or update a conversation.
    Chat { id: usize, unread: u8, time: String, name: String, status: String },
    /// `CALL` kind count time name: a recent call (kind 0 received, 1 missed, 2 outgoing).
    Call { kind: CallKind, count: u8, time: String, name: String },
    /// `STORY` segments unseen time name: a contact's status.
    Story { segments: u16, unseen: u16, time: String, name: String },
    /// `MYSTORY` time: when my own status was posted.
    MyStory(String),
    /// `CHANNEL` unread time name preview: a followed channel.
    Channel { unread: u16, time: String, name: String, preview: String },
    /// `SUGGEST` verified followers name: a channel to follow.
    Suggest { verified: bool, followers: String, name: String },
    /// `SHOWCHAT` chat: open that conversation.
    ShowChat(usize),
    /// `CONTACTRESET`: the contacts sent before are outdated.
    ContactReset,
    /// `CONTACT` name: a contact for the new-conversation panel.
    Contact(String),
    /// `INCOMING` name: someone calls us.
    Incoming(String),
    /// `CALLSTATE active`: the call we placed was answered.
    CallActive,
    /// `CALLSTATE failed title body`: the call could not be made.
    CallFailed { title: String, body: String },
    /// `CALLSTATE ended [reason]`: the call is over.
    CallEnded(String),
    /// `NEWCALL` kind count time name: a call that just ended, at the top of the recents.
    NewCall { kind: CallKind, count: u8, time: String, name: String },
    /// `PROFILE` name: the account name.
    Profile(String),
    /// `FAVORITE` name: a favourite contact of the calls screen.
    Favorite(String),
    /// `PRESENCE` chat text: the status line under the chat's name.
    Presence { chat: usize, status: String },
    /// `MSG` chat out read time id reply text: a message.
    Msg { chat: usize, outgoing: bool, read: bool, time: String, id: String, reply: String, text: String },
    /// `PAST` chat out read time id reply text: an older message.
    Past { chat: usize, outgoing: bool, read: bool, time: String, id: String, reply: String, text: String },
    /// `MEDIA` chat id kind w h label: what a message carries besides text.
    Media { chat: usize, id: String, kind: u8, width: u32, height: u32, label: String },
    /// `THUMB` chat id w h: a preview picture starts.
    Thumb { chat: usize, id: String, width: usize, height: usize },
    /// `THUMBROW` chat id y hex: a row of it.
    ThumbRow { chat: usize, id: String, row: usize, hex: Vec<u8> },
    /// `THUMBFAIL` chat id: there is none.
    ThumbFail { chat: usize, id: String },
    /// `PASTEND` chat more: that is all for the last `OLDER`.
    PastEnd { chat: usize, more: bool },
    /// `REVOKED` chat id by_me: the message was deleted for everyone.
    Revoked { chat: usize, id: String, by_me: bool },
    /// `EDITED` chat id text: a message now reads `text`.
    Edited { chat: usize, id: String, text: String },
    /// `STARRED` chat id 1|0: a favourite mark.
    Starred { chat: usize, id: String, starred: bool },
    /// `REACTIONS` chat id mine counts: the reactions of a message.
    Reactions { chat: usize, id: String, mine: String, counts: String },
    /// `SENT` chat id: the id of what we sent last in the chat.
    Sent { chat: usize, id: String },
}

/// The first tab of `s` from `k` on.
pub open spec fn tab_from(s: Seq<char>, k: int) -> Option<int>
    decreases s.len() - k,
{
    if k < 0 || k >= s.len() { None } else if s[k] == '\t' { Some(k) } else { tab_from(s, k + 1) }
}

/// `s` cut at tabs into at most `n` fields, the last taking the rest.
pub open spec fn fields(s: Seq<char>, n: nat) -> Seq<Seq<char>>
    decreases n,
{
    if n <= 1 {
        seq![s]
    } else {
        match tab_from(s, 0) {
            Some(t) => seq![s.take(t)] + fields(s.skip(t + 1), (n - 1) as nat),
            None => seq![s],
        }
    }
}

/// A number field: decimal digits only (none reads as 0), within `usize`.
pub open spec fn field_number(s: Seq<char>) -> Option<usize> {
    if all_digits(s) && digits_value(s) <= usize::MAX { Some(digits_value(s) as usize) } else { None }
}

/// The kind of a call as `CALL` and `NEWCALL` number it.
pub open spec fn call_kind(k: usize) -> CallKind {
    if k == 1 { CallKind::Missed } else if k == 2 { CallKind::Outgoing } else { CallKind::Received }
}

pub open spec fn at_most(n: usize, limit: usize) -> usize {
    if n < limit { n } else { limit }
}

/// The command of a line (up to the first tab) and the rest (after it; empty without one).
pub open spec fn command_of(line: Seq<char>) -> (Seq<char>, Seq<char>) {
    match tab_from(line, 0) {
        Some(t) => (line.take(t), line.skip(t + 1)),
        None => (line, Seq::empty()),
    }
}

/// The fields of a message line (`MSG`, `PAST`) read: conversation, out, read, time, id, reply, text.
pub open spec fn message_fields(rest: Seq<char>) -> Option<(usize, bool, bool, Seq<char>, Seq<char>, Seq<char>, Seq<char>)> {
    let p = fields(rest, 7);
    if p.len() == 7 && field_number(p[0]) is Some {
        Some((field_number(p[0])->0, p[1] == "1"@, p[2] == "1"@, p[3], p[4], p[5], p[6]))
    } else {
        None
    }
}

/// Whether `parsed` is what the line `line` says (`None` for a line that does not read).
pub open spec fn reads_as(line: Seq<char>, parsed: Option<UiLine>) -> bool {
    let (command, rest) = command_of(line);
    let p2 = fields(rest, 2);
    let p3 = fields(rest, 3);
    let p4 = fields(rest, 4);
    if command == "QR"@ {
        parsed matches Some(UiLine::Qr(bytes)) && bytes@ == encode_utf8(rest)
    } else if command == "NOTICE"@ {
        parsed matches Some(UiLine::Notice(t)) && t@ == rest
    } else if command == "RESET"@ {
        parsed matches Some(UiLine::Reset)
    } else if command == "OPEN"@ {
        parsed matches Some(UiLine::Open)
    } else if command == "DELIVERED"@ {
        match field_number(rest) { Some(n) => parsed == Some(UiLine::Delivered(n)), None => parsed is None }
    } else if command == "READ"@ {
        match field_number(rest) { Some(n) => parsed == Some(UiLine::Read(n)), None => parsed is None }
    } else if command == "STATUS"@ {
        parsed matches Some(UiLine::Status(t)) && t@ == rest
    } else if command == "CHAT"@ {
        let p = fields(rest, 5);
        if p.len() == 5 && field_number(p[0]) is Some && field_number(p[1]) is Some {
            parsed matches Some(UiLine::Chat { id, unread, time, name, status }) && id == field_number(p[0])->0
                && unread == at_most(field_number(p[1])->0, 255) as u8 && time@ == p[2] && name@ == p[3] && status@ == p[4]
        } else {
            parsed is None
        }
    } else if command == "CALL"@ || command == "NEWCALL"@ {
        if p4.len() == 4 && field_number(p4[0]) is Some && field_number(p4[1]) is Some {
            let kind0 = call_kind(field_number(p4[0])->0);
            let count0 = at_most(field_number(p4[1])->0, 255) as u8;
            if command == "CALL"@ {
                parsed matches Some(UiLine::Call { kind, count, time, name }) && kind == kind0 && count == count0
                    && time@ == p4[2] && name@ == p4[3]
            } else {
                parsed matches Some(UiLine::NewCall { kind, count, time, name }) && kind == kind0 && count == count0
                    && time@ == p4[2] && name@ == p4[3]
            }
        } else {
            parsed is None
        }
    } else if command == "STORY"@ {
        if p4.len() == 4 && field_number(p4[0]) is Some && field_number(p4[1]) is Some {
            parsed matches Some(UiLine::Story { segments, unseen, time, name })
                && segments == at_most(field_number(p4[0])->0, 60) as u16 && unseen == at_most(field_number(p4[1])->0, 60) as u16
                && time@ == p4[2] && name@ == p4[3]
        } else {
            parsed is None
        }
    } else if command == "MYSTORY"@ {
        parsed matches Some(UiLine::MyStory(t)) && t@ == rest
    } else if command == "CHANNEL"@ {
        if p4.len() == 4 && field_number(p4[0]) is Some {
            parsed matches Some(UiLine::Channel { unread, time, name, preview }) && unread == at_most(field_number(p4[0])->0, 999) as u16
                && time@ == p4[1] && name@ == p4[2] && preview@ == p4[3]
        } else {
            parsed is None
        }
    } else if command == "SUGGEST"@ {
        if p3.len() == 3 {
            parsed matches Some(UiLine::Suggest { verified, followers, name }) && verified == (p3[0] == "1"@)
                && followers@ == p3[1] && name@ == p3[2]
        } else {
            parsed is None
        }
    } else if command == "SHOWCHAT"@ {
        match field_number(rest) { Some(n) => parsed == Some(UiLine::ShowChat(n)), None => parsed is None }
    } else if command == "CONTACTRESET"@ {
        parsed matches Some(UiLine::ContactReset)
    } else if command == "CONTACT"@ {
        parsed matches Some(UiLine::Contact(t)) && t@ == rest
    } else if command == "INCOMING"@ {
        parsed matches Some(UiLine::Incoming(t)) && t@ == rest
    } else if command == "CALLSTATE"@ {
        if p3[0] == "active"@ {
            parsed matches Some(UiLine::CallActive)
        } else if p3[0] == "failed"@ && p3.len() == 3 {
            parsed matches Some(UiLine::CallFailed { title, body }) && title@ == p3[1] && body@ == p3[2]
        } else if p3[0] == "ended"@ {
            parsed matches Some(UiLine::CallEnded(reason)) && reason@ == (if p3.len() >= 2 { p3[1] } else { Seq::empty() })
        } else {
            parsed is None
        }
    } else if command == "PROFILE"@ {
        parsed matches Some(UiLine::Profile(t)) && t@ == rest
    } else if command == "FAVORITE"@ {
        parsed matches Some(UiLine::Favorite(t)) && t@ == rest
    } else if command == "PRESENCE"@ {
        if p2.len() == 2 && field_number(p2[0]) is Some {
            parsed matches Some(UiLine::Presence { chat, status }) && chat == field_number(p2[0])->0 && status@ == p2[1]
        } else {
            parsed is None
        }
    } else if command == "MSG"@ || command == "PAST"@ {
        match message_fields(rest) {
            Some((c, o, r, t, i, q, x)) => if command == "MSG"@ {
                parsed matches Some(UiLine::Msg { chat, outgoing, read, time, id, reply, text }) && chat == c && outgoing == o
                    && read == r && time@ == t && id@ == i && reply@ == q && text@ == x
            } else {
                parsed matches Some(UiLine::Past { chat, outgoing, read, time, id, reply, text }) && chat == c && outgoing == o
                    && read == r && time@ == t && id@ == i && reply@ == q && text@ == x
            },
            None => parsed is None,
        }
    } else if command == "MEDIA"@ {
        let p = fields(rest, 6);
        if p.len() == 6 && field_number(p[0]) is Some && field_number(p[2]) is Some && field_number(p[3]) is Some
            && field_number(p[4]) is Some {
            parsed matches Some(UiLine::Media { chat, id, kind, width, height, label }) && chat == field_number(p[0])->0
                && id@ == p[1] && kind == field_number(p[2])->0 as u8 && width == field_number(p[3])->0 as u32
                && height == field_number(p[4])->0 as u32 && label@ == p[5]
        } else {
            parsed is None
        }
    } else if command == "THUMB"@ {
        if p4.len() == 4 && field_number(p4[0]) is Some && field_number(p4[2]) is Some && field_number(p4[3]) is Some {
            parsed matches Some(UiLine::Thumb { chat, id, width, height }) && chat == field_number(p4[0])->0 && id@ == p4[1]
                && width == field_number(p4[2])->0 && height == field_number(p4[3])->0
        } else {
            parsed is None
        }
    } else if command == "THUMBROW"@ {
        if p4.len() == 4 && field_number(p4[0]) is Some && field_number(p4[2]) is Some {
            parsed matches Some(UiLine::ThumbRow { chat, id, row, hex }) && chat == field_number(p4[0])->0 && id@ == p4[1]
                && row == field_number(p4[2])->0 && hex@ == encode_utf8(p4[3])
        } else {
            parsed is None
        }
    } else if command == "THUMBFAIL"@ || command == "SENT"@ {
        if p2.len() == 2 && field_number(p2[0]) is Some {
            if command == "THUMBFAIL"@ {
                parsed matches Some(UiLine::ThumbFail { chat, id }) && chat == field_number(p2[0])->0 && id@ == p2[1]
            } else {
                parsed matches Some(UiLine::Sent { chat, id }) && chat == field_number(p2[0])->0 && id@ == p2[1]
            }
        } else {
            parsed is None
        }
    } else if command == "PASTEND"@ {
        if p2.len() == 2 && field_number(p2[0]) is Some {
            parsed == Some(UiLine::PastEnd { chat: field_number(p2[0])->0, more: p2[1] == "1"@ })
        } else {
            parsed is None
        }
    } else if command == "REVOKED"@ || command == "EDITED"@ || command == "STARRED"@ {
        if p3.len() == 3 && field_number(p3[0]) is Some {
            let c = field_number(p3[0])->0;
            if command == "REVOKED"@ {
                parsed matches Some(UiLine::Revoked { chat, id, by_me }) && chat == c && id@ == p3[1] && by_me == (p3[2] == "1"@)
            } else if command == "EDITED"@ {
                parsed matches Some(UiLine::Edited { chat, id, text }) && chat == c && id@ == p3[1] && text@ == p3[2]
            } else {
                parsed matches Some(UiLine::Starred { chat, id, starred }) && chat == c && id@ == p3[1] && starred == (p3[2] == "1"@)
            }
        } else {
            parsed is None
        }
    } else if command == "REACTIONS"@ {
        if p4.len() == 4 && field_number(p4[0]) is Some {
            parsed matches Some(UiLine::Reactions { chat, id, mine, counts }) && chat == field_number(p4[0])->0 && id@ == p4[1]
                && mine@ == p4[2] && counts@ == p4[3]
        } else {
            parsed is None
        }
    } else {
        parsed is None
    }
}

fn tab_in(s: &[char]) -> (at: Option<usize>)
    ensures
        match at {
            Some(t) => tab_from(s@, 0) == Some(t as int) && t < s@.len(),
            None => tab_from(s@, 0) is None,
        },
{
    let mut k: usize = 0;
    while k < s.len()
        invariant
            0 <= k <= s@.len(),
            tab_from(s@, 0) == tab_from(s@, k as int),
        decreases s@.len() - k,
    {
        if s[k] == '\t' {
            return Some(k);
        }
        k = k + 1;
    }
    None
}

/// The views of the characters of each field.
pub open spec fn field_views(parts: Seq<Vec<char>>) -> Seq<Seq<char>> {
    parts.map_values(|p: Vec<char>| p@)
}

fn split_fields(s: &[char], n: usize) -> (parts: Vec<Vec<char>>)
    requires
        n >= 1,
    ensures
        field_views(parts@) == fields(s@, n as nat),
        parts@.len() >= 1,
        parts@.len() <= n,
    decreases n,
{
    if n <= 1 {
        let mut parts: Vec<Vec<char>> = Vec::new();
        let whole = slice_chars(s, 0, s.len());
        assert(whole@ =~= s@);
        parts.push(whole);
        assert(field_views(parts@) =~= fields(s@, n as nat));
        return parts;
    }
    match tab_in(s) {
        Some(t) => {
            let len = s.len();
            let head = slice_chars(s, 0, t);
            let tail = slice_chars(s, t + 1, len);
            let rest = split_fields(tail.as_slice(), n - 1);
            let mut parts: Vec<Vec<char>> = Vec::new();
            parts.push(head);
            let mut i: usize = 0;
            while i < rest.len()
                invariant
                    0 <= i <= rest@.len(),
                    parts@.len() == i + 1,
                    parts@[0]@ == s@.take(t as int),
                    forall|j: int| 1 <= j <= i ==> (#[trigger] parts@[j])@ == rest@[j - 1]@,
                decreases rest@.len() - i,
            {
                let copy = slice_chars(rest[i].as_slice(), 0, rest[i].len());
                assert(copy@ =~= rest@[i as int]@);
                parts.push(copy);
                i = i + 1;
            }
            assert(tail@ =~= s@.skip(t + 1));
            assert(field_views(parts@) =~= seq![s@.take(t as int)] + field_views(rest@));
            parts
        },
        None => {
            let mut parts: Vec<Vec<char>> = Vec::new();
            let whole = slice_chars(s, 0, s.len());
            assert(whole@ =~= s@);
            parts.push(whole);
            assert(field_views(parts@) =~= fields(s@, n as nat));
            parts
        },
    }
}

/// A number field read.
fn number_field(s: &[char]) -> (value: Option<usize>)
    ensures
        value == field_number(s@),
{
    if s.len() == 0 {
        return Some(0);
    }
    if s[0] == '+' {
        assert(!crate::link::is_digit(s@[0]));
        return None;
    }
    let value = parse_number(s);
    assert(crate::link::unsigned_part(s@) == s@);
    value
}

fn is_one(s: &[char]) -> (one: bool)
    ensures
        one == (s@ == "1"@),
{
    same_chars(s, chars_of("1").as_slice())
}

fn is_word(s: &[char], word: &str) -> (same: bool)
    ensures
        same == (s@ == word@),
{
    same_chars(s, chars_of(word).as_slice())
}

fn text_of(s: &[char]) -> (text: String)
    ensures
        text@ == s@,
{
    string_of(s)
}

fn kind_of(k: usize) -> (kind: CallKind)
    ensures
        kind == call_kind(k),
{
    if k == 1 { CallKind::Missed } else if k == 2 { CallKind::Outgoing } else { CallKind::Received }
}

fn cap(n: usize, limit: usize) -> (m: usize)
    ensures
        m == at_most(n, limit),
{
    if n < limit { n } else { limit }
}

/// Reads a line from the core (without its line break).
#[verifier::spinoff_prover]
#[verifier::rlimit(100)]
pub fn parse_line(line: &str) -> (parsed: Option<UiLine>)
    ensures
        reads_as(line@, parsed),
{
    let chars = chars_of(line);
    let len = chars.len();
    let (command, rest) = match tab_in(chars.as_slice()) {
        Some(t) => (slice_chars(chars.as_slice(), 0, t), slice_chars(chars.as_slice(), t + 1, len)),
        None => (slice_chars(chars.as_slice(), 0, chars.len()), Vec::new()),
    };
    assert(command@ == command_of(line@).0 && rest@ == command_of(line@).1) by {
        assert(chars@.skip(0) =~= chars@);
        assert(chars@.subrange(0, chars@.len() as int) =~= chars@);
        if let Some(t) = tab_from(chars@, 0) {
            assert(chars@.subrange(t + 1, chars@.len() as int) =~= chars@.skip(t + 1));
        } else {
            assert(rest@ =~= Seq::<char>::empty());
        }
    }
    let command = command.as_slice();
    let rest = rest.as_slice();
    let p2 = split_fields(rest, 2);
    let p3 = split_fields(rest, 3);
    let p4 = split_fields(rest, 4);
    if is_word(command, "QR") {
        let text = text_of(rest);
        let bytes = text.as_str().as_bytes();
        let mut payload: Vec<u8> = Vec::new();
        let mut i: usize = 0;
        while i < bytes.len()
            invariant
                0 <= i <= bytes@.len(),
                payload@ == bytes@.take(i as int),
            decreases bytes@.len() - i,
        {
            payload.push(bytes[i]);
            i = i + 1;
            assert(payload@ =~= bytes@.take(i as int));
        }
        assert(bytes@.take(bytes@.len() as int) =~= bytes@);
        Some(UiLine::Qr(payload))
    } else if is_word(command, "NOTICE") {
        Some(UiLine::Notice(text_of(rest)))
    } else if is_word(command, "RESET") {
        Some(UiLine::Reset)
    } else if is_word(command, "OPEN") {
        Some(UiLine::Open)
    } else if is_word(command, "DELIVERED") {
        match number_field(rest) { Some(n) => Some(UiLine::Delivered(n)), None => None }
    } else if is_word(command, "READ") {
        match number_field(rest) { Some(n) => Some(UiLine::Read(n)), None => None }
    } else if is_word(command, "STATUS") {
        Some(UiLine::Status(text_of(rest)))
    } else if is_word(command, "CHAT") {
        let p = split_fields(rest, 5);
        if p.len() == 5 {
            assert(field_views(p@)[0] == p@[0]@ && field_views(p@)[1] == p@[1]@ && field_views(p@)[2] == p@[2]@
                && field_views(p@)[3] == p@[3]@ && field_views(p@)[4] == p@[4]@);
            match (number_field(p[0].as_slice()), number_field(p[1].as_slice())) {
                (Some(id), Some(unread)) => Some(UiLine::Chat { id, unread: cap(unread, 255) as u8, time: text_of(p[2].as_slice()),
                    name: text_of(p[3].as_slice()), status: text_of(p[4].as_slice()) }),
                _ => None,
            }
        } else {
            None
        }
    } else if is_word(command, "CALL") || is_word(command, "NEWCALL") {
        if p4.len() == 4 {
            assert(field_views(p4@)[0] == p4@[0]@ && field_views(p4@)[1] == p4@[1]@ && field_views(p4@)[2] == p4@[2]@
                && field_views(p4@)[3] == p4@[3]@);
            match (number_field(p4[0].as_slice()), number_field(p4[1].as_slice())) {
                (Some(kind), Some(count)) => {
                    let kind = kind_of(kind);
                    let count = cap(count, 255) as u8;
                    let time = text_of(p4[2].as_slice());
                    let name = text_of(p4[3].as_slice());
                    if is_word(command, "CALL") {
                        Some(UiLine::Call { kind, count, time, name })
                    } else {
                        Some(UiLine::NewCall { kind, count, time, name })
                    }
                },
                _ => None,
            }
        } else {
            None
        }
    } else if is_word(command, "STORY") {
        if p4.len() == 4 {
            assert(field_views(p4@)[0] == p4@[0]@ && field_views(p4@)[1] == p4@[1]@ && field_views(p4@)[2] == p4@[2]@
                && field_views(p4@)[3] == p4@[3]@);
            match (number_field(p4[0].as_slice()), number_field(p4[1].as_slice())) {
                (Some(segments), Some(unseen)) => Some(UiLine::Story { segments: cap(segments, 60) as u16, unseen: cap(unseen, 60) as u16,
                    time: text_of(p4[2].as_slice()), name: text_of(p4[3].as_slice()) }),
                _ => None,
            }
        } else {
            None
        }
    } else if is_word(command, "MYSTORY") {
        Some(UiLine::MyStory(text_of(rest)))
    } else if is_word(command, "CHANNEL") {
        if p4.len() == 4 {
            assert(field_views(p4@)[0] == p4@[0]@ && field_views(p4@)[1] == p4@[1]@ && field_views(p4@)[2] == p4@[2]@
                && field_views(p4@)[3] == p4@[3]@);
            match number_field(p4[0].as_slice()) {
                Some(unread) => Some(UiLine::Channel { unread: cap(unread, 999) as u16, time: text_of(p4[1].as_slice()),
                    name: text_of(p4[2].as_slice()), preview: text_of(p4[3].as_slice()) }),
                None => None,
            }
        } else {
            None
        }
    } else if is_word(command, "SUGGEST") {
        if p3.len() == 3 {
            assert(field_views(p3@)[0] == p3@[0]@ && field_views(p3@)[1] == p3@[1]@ && field_views(p3@)[2] == p3@[2]@);
            Some(UiLine::Suggest { verified: is_one(p3[0].as_slice()), followers: text_of(p3[1].as_slice()), name: text_of(p3[2].as_slice()) })
        } else {
            None
        }
    } else if is_word(command, "SHOWCHAT") {
        match number_field(rest) { Some(n) => Some(UiLine::ShowChat(n)), None => None }
    } else if is_word(command, "CONTACTRESET") {
        Some(UiLine::ContactReset)
    } else if is_word(command, "CONTACT") {
        Some(UiLine::Contact(text_of(rest)))
    } else if is_word(command, "INCOMING") {
        Some(UiLine::Incoming(text_of(rest)))
    } else if is_word(command, "CALLSTATE") {
        assert(field_views(p3@)[0] == p3@[0]@);
        if is_word(p3[0].as_slice(), "active") {
            Some(UiLine::CallActive)
        } else if is_word(p3[0].as_slice(), "failed") && p3.len() == 3 {
            assert(field_views(p3@)[1] == p3@[1]@ && field_views(p3@)[2] == p3@[2]@);
            Some(UiLine::CallFailed { title: text_of(p3[1].as_slice()), body: text_of(p3[2].as_slice()) })
        } else if is_word(p3[0].as_slice(), "ended") {
            if p3.len() >= 2 {
                assert(field_views(p3@)[1] == p3@[1]@);
                Some(UiLine::CallEnded(text_of(p3[1].as_slice())))
            } else {
                Some(UiLine::CallEnded(String::new()))
            }
        } else {
            None
        }
    } else if is_word(command, "PROFILE") {
        Some(UiLine::Profile(text_of(rest)))
    } else if is_word(command, "FAVORITE") {
        Some(UiLine::Favorite(text_of(rest)))
    } else if is_word(command, "PRESENCE") {
        if p2.len() == 2 {
            assert(field_views(p2@)[0] == p2@[0]@ && field_views(p2@)[1] == p2@[1]@);
            match number_field(p2[0].as_slice()) {
                Some(chat) => Some(UiLine::Presence { chat, status: text_of(p2[1].as_slice()) }),
                None => None,
            }
        } else {
            None
        }
    } else if is_word(command, "MSG") || is_word(command, "PAST") {
        let p = split_fields(rest, 7);
        if p.len() == 7 {
            assert(field_views(p@)[0] == p@[0]@ && field_views(p@)[1] == p@[1]@ && field_views(p@)[2] == p@[2]@
                && field_views(p@)[3] == p@[3]@ && field_views(p@)[4] == p@[4]@ && field_views(p@)[5] == p@[5]@
                && field_views(p@)[6] == p@[6]@);
            match number_field(p[0].as_slice()) {
                Some(chat) => {
                    let outgoing = is_one(p[1].as_slice());
                    let read = is_one(p[2].as_slice());
                    let time = text_of(p[3].as_slice());
                    let id = text_of(p[4].as_slice());
                    let reply = text_of(p[5].as_slice());
                    let text = text_of(p[6].as_slice());
                    if is_word(command, "MSG") {
                        Some(UiLine::Msg { chat, outgoing, read, time, id, reply, text })
                    } else {
                        Some(UiLine::Past { chat, outgoing, read, time, id, reply, text })
                    }
                },
                None => None,
            }
        } else {
            None
        }
    } else if is_word(command, "MEDIA") {
        let p = split_fields(rest, 6);
        if p.len() == 6 {
            assert(field_views(p@)[0] == p@[0]@ && field_views(p@)[1] == p@[1]@ && field_views(p@)[2] == p@[2]@
                && field_views(p@)[3] == p@[3]@ && field_views(p@)[4] == p@[4]@ && field_views(p@)[5] == p@[5]@);
            match (number_field(p[0].as_slice()), number_field(p[2].as_slice()), number_field(p[3].as_slice()), number_field(p[4].as_slice())) {
                (Some(chat), Some(kind), Some(width), Some(height)) => Some(UiLine::Media { chat, id: text_of(p[1].as_slice()),
                    kind: kind as u8, width: width as u32, height: height as u32, label: text_of(p[5].as_slice()) }),
                _ => None,
            }
        } else {
            None
        }
    } else if is_word(command, "THUMB") {
        if p4.len() == 4 {
            assert(field_views(p4@)[0] == p4@[0]@ && field_views(p4@)[1] == p4@[1]@ && field_views(p4@)[2] == p4@[2]@
                && field_views(p4@)[3] == p4@[3]@);
            match (number_field(p4[0].as_slice()), number_field(p4[2].as_slice()), number_field(p4[3].as_slice())) {
                (Some(chat), Some(width), Some(height)) => Some(UiLine::Thumb { chat, id: text_of(p4[1].as_slice()), width, height }),
                _ => None,
            }
        } else {
            None
        }
    } else if is_word(command, "THUMBROW") {
        if p4.len() == 4 {
            assert(field_views(p4@)[0] == p4@[0]@ && field_views(p4@)[1] == p4@[1]@ && field_views(p4@)[2] == p4@[2]@
                && field_views(p4@)[3] == p4@[3]@);
            match (number_field(p4[0].as_slice()), number_field(p4[2].as_slice())) {
                (Some(chat), Some(row)) => {
                    let text = text_of(p4[3].as_slice());
                    let bytes = text.as_str().as_bytes();
                    let mut hex: Vec<u8> = Vec::new();
                    let mut i: usize = 0;
                    while i < bytes.len()
                        invariant
                            0 <= i <= bytes@.len(),
                            hex@ == bytes@.take(i as int),
                        decreases bytes@.len() - i,
                    {
                        hex.push(bytes[i]);
                        i = i + 1;
                        assert(hex@ =~= bytes@.take(i as int));
                    }
                    assert(bytes@.take(bytes@.len() as int) =~= bytes@);
                    Some(UiLine::ThumbRow { chat, id: text_of(p4[1].as_slice()), row, hex })
                },
                _ => None,
            }
        } else {
            None
        }
    } else if is_word(command, "THUMBFAIL") || is_word(command, "SENT") {
        if p2.len() == 2 {
            assert(field_views(p2@)[0] == p2@[0]@ && field_views(p2@)[1] == p2@[1]@);
            match number_field(p2[0].as_slice()) {
                Some(chat) => {
                    let id = text_of(p2[1].as_slice());
                    if is_word(command, "THUMBFAIL") { Some(UiLine::ThumbFail { chat, id }) } else { Some(UiLine::Sent { chat, id }) }
                },
                None => None,
            }
        } else {
            None
        }
    } else if is_word(command, "PASTEND") {
        if p2.len() == 2 {
            assert(field_views(p2@)[0] == p2@[0]@ && field_views(p2@)[1] == p2@[1]@);
            match number_field(p2[0].as_slice()) {
                Some(chat) => Some(UiLine::PastEnd { chat, more: is_one(p2[1].as_slice()) }),
                None => None,
            }
        } else {
            None
        }
    } else if is_word(command, "REVOKED") || is_word(command, "EDITED") || is_word(command, "STARRED") {
        if p3.len() == 3 {
            assert(field_views(p3@)[0] == p3@[0]@ && field_views(p3@)[1] == p3@[1]@ && field_views(p3@)[2] == p3@[2]@);
            match number_field(p3[0].as_slice()) {
                Some(chat) => {
                    let id = text_of(p3[1].as_slice());
                    if is_word(command, "REVOKED") {
                        Some(UiLine::Revoked { chat, id, by_me: is_one(p3[2].as_slice()) })
                    } else if is_word(command, "EDITED") {
                        Some(UiLine::Edited { chat, id, text: text_of(p3[2].as_slice()) })
                    } else {
                        Some(UiLine::Starred { chat, id, starred: is_one(p3[2].as_slice()) })
                    }
                },
                None => None,
            }
        } else {
            None
        }
    } else if is_word(command, "REACTIONS") {
        if p4.len() == 4 {
            assert(field_views(p4@)[0] == p4@[0]@ && field_views(p4@)[1] == p4@[1]@ && field_views(p4@)[2] == p4@[2]@
                && field_views(p4@)[3] == p4@[3]@);
            match number_field(p4[0].as_slice()) {
                Some(chat) => Some(UiLine::Reactions { chat, id: text_of(p4[1].as_slice()), mine: text_of(p4[2].as_slice()),
                    counts: text_of(p4[3].as_slice()) }),
                None => None,
            }
        } else {
            None
        }
    } else {
        None
    }
}


/// What the chat becomes for a line that only touches the chat: each kind of line of the protocol
/// and the change it makes.
pub open spec fn chat_applied(parsed: UiLine, c0: Chat, c1: Chat) -> bool {
    let messages0 = c0.store.messages@;
    let messages1 = c1.store.messages@;
    match parsed {
        UiLine::Reset => {
            &&& messages1.len() == 0 && c1.store.visible@.len() == 0 && !c1.screen.open && !c1.store.live
            &&& forall|i: int| 0 <= i < crate::items::MAX_CHATS ==> crate::items::blank(#[trigger] c1.store.conversations@[i])
            &&& c1.lists.calls@.len() == 0 && c1.lists.contacts@.len() == 0 && c1.lists.favorites@.len() == 0
            &&& c1.outbox == c0.outbox && c1.boxes == c0.boxes && c1.call == c0.call
        },
        UiLine::Delivered(c) => {
            &&& messages1.len() == messages0.len()
            &&& forall|i: int| 0 <= i < messages0.len() ==> #[trigger] messages1[i] == (if messages0[i].chat as int == c
                && messages0[i].outgoing && messages0[i].delivery == crate::items::Delivery::Sent {
                crate::items::Message { delivery: crate::items::Delivery::Delivered, ..messages0[i] } } else { messages0[i] })
            &&& c1 == (Chat { store: crate::screen::Store { messages: c1.store.messages, ..c0.store }, ..c0 })
        },
        UiLine::Read(c) => {
            &&& messages1.len() == messages0.len()
            &&& forall|i: int| 0 <= i < messages0.len() ==> #[trigger] messages1[i] == (if messages0[i].chat as int == c
                && messages0[i].outgoing { crate::items::Message { delivery: crate::items::Delivery::Read, ..messages0[i] } }
                else { messages0[i] })
            &&& c1 == (Chat { store: crate::screen::Store { messages: c1.store.messages, ..c0.store }, ..c0 })
        },
        UiLine::Status(text) => {
            &&& c1.boxes.banner@ == crate::screen::filled_field(text@, crate::screen::BANNER_CAPACITY as nat)
            &&& c1 == (Chat { boxes: crate::screen::Boxes { banner: c1.boxes.banner, ..c0.boxes }, ..c0 })
        },
        UiLine::Chat { id, unread, time, name, status } => {
            &&& id >= crate::items::MAX_CHATS ==> c1 == c0
            &&& id < crate::items::MAX_CHATS ==> ({
                let before = c0.store.conversations@[id as int];
                let after = c1.store.conversations@[id as int];
                &&& after.used && after.unread == unread && after.silenced == before.silenced && after.draft == before.draft
                &&& after.time@ == fit(time@, crate::items::TIME_CAPACITY as nat)
                &&& after.name@ == fit(name@, crate::items::NAME_CAPACITY as nat)
                &&& after.status@ == fit(status@, crate::items::STATUS_CAPACITY as nat)
                &&& forall|i: int| 0 <= i < crate::items::MAX_CHATS && i != id ==> c1.store.conversations@[i] == c0.store.conversations@[i]
                &&& c1.screen.selected == (if forall|i: int| 0 <= i < crate::items::MAX_CHATS ==> !(#[trigger] c0.store.conversations@[i]).used {
                    id } else { c0.screen.selected })
                &&& crate::chat_lists::list_order(c1.store.conversations@, c0.screen.unread_only, c0.boxes.search@.text, c1.store.visible@)
                &&& c1.store.messages == c0.store.messages
            })
        },
        UiLine::Call { kind, count, time, name } => {
            &&& crate::chat::grown(c0.lists.calls@, c1.lists.calls@, crate::screen::MAX_CALLS as nat)
            &&& c0.lists.calls@.len() < crate::screen::MAX_CALLS ==> ({
                let call = c1.lists.calls@.last();
                call.kind == kind && call.count == count && call.time@ == fit(time@, crate::items::TIME_CAPACITY as nat)
                    && call.name@ == fit(name@, crate::items::NAME_CAPACITY as nat)
            })
            &&& c1 == (Chat { lists: crate::screen::Lists { calls: c1.lists.calls, ..c0.lists }, ..c0 })
        },
        UiLine::NewCall { kind, count, time, name } => {
            let kept = if c0.lists.calls@.len() == crate::screen::MAX_CALLS { c0.lists.calls@.drop_last() } else { c0.lists.calls@ };
            let call = c1.lists.calls@[0];
            &&& c1.lists.calls@.len() == kept.len() + 1 && c1.lists.calls@.drop_first() == kept
            &&& call.kind == kind && call.count == count && call.time@ == fit(time@, crate::items::TIME_CAPACITY as nat)
                && call.name@ == fit(name@, crate::items::NAME_CAPACITY as nat)
            &&& c1 == (Chat { lists: crate::screen::Lists { calls: c1.lists.calls, ..c0.lists }, ..c0 })
        },
        UiLine::Story { segments, unseen, time, name } => {
            &&& crate::chat::grown(c0.lists.stories@, c1.lists.stories@, crate::screen::MAX_STORIES as nat)
            &&& c0.lists.stories@.len() < crate::screen::MAX_STORIES ==> ({
                let story = c1.lists.stories@.last();
                story.first == segments && story.second == unseen && story.flag == (unseen == 0)
                    && story.time@ == fit(time@, crate::items::TIME_CAPACITY as nat) && story.name@ == fit(name@, crate::items::NAME_CAPACITY as nat)
            })
            &&& c1 == (Chat { lists: crate::screen::Lists { stories: c1.lists.stories, ..c0.lists }, ..c0 })
        },
        UiLine::MyStory(time) => {
            &&& c1.lists.my_status.time@ == fit(time@, crate::items::TIME_CAPACITY as nat)
            &&& c1 == (Chat { lists: crate::screen::Lists { my_status: c1.lists.my_status, ..c0.lists }, ..c0 })
        },
        UiLine::Channel { unread, time, name, preview } => {
            &&& crate::chat::grown(c0.lists.channels@, c1.lists.channels@, crate::screen::MAX_CHANNELS as nat)
            &&& c0.lists.channels@.len() < crate::screen::MAX_CHANNELS ==> ({
                let channel = c1.lists.channels@.last();
                channel.first == unread && channel.time@ == fit(time@, crate::items::TIME_CAPACITY as nat)
                    && channel.name@ == fit(name@, crate::items::NAME_CAPACITY as nat)
                    && channel.text@ == fit(preview@, crate::items::TEXT_CAPACITY as nat)
            })
            &&& c1 == (Chat { lists: crate::screen::Lists { channels: c1.lists.channels, ..c0.lists }, ..c0 })
        },
        UiLine::Suggest { verified, followers, name } => {
            &&& crate::chat::grown(c0.lists.suggestions@, c1.lists.suggestions@, crate::screen::MAX_SUGGESTIONS as nat)
            &&& c0.lists.suggestions@.len() < crate::screen::MAX_SUGGESTIONS ==> ({
                let suggestion = c1.lists.suggestions@.last();
                suggestion.flag == verified && suggestion.name@ == fit(name@, crate::items::NAME_CAPACITY as nat)
                    && suggestion.text@ == fit(followers@, crate::items::TEXT_CAPACITY as nat)
            })
            &&& c1 == (Chat { lists: crate::screen::Lists { suggestions: c1.lists.suggestions, ..c0.lists }, ..c0 })
        },
        UiLine::ShowChat(c) => {
            &&& !(c < crate::items::MAX_CHATS && c0.store.conversations@[c as int].used) ==> c1 == c0
            &&& (c < crate::items::MAX_CHATS && c0.store.conversations@[c as int].used) ==>
                c1.screen.selected == c && c1.screen.open && !c1.screen.new_chat
        },
        UiLine::ContactReset => {
            &&& c1.lists.contacts@.len() == 0
            &&& c1 == (Chat { lists: crate::screen::Lists { contacts: c1.lists.contacts, ..c0.lists },
                scroll: crate::screen::Scroll { panel: c1.scroll.panel, ..c0.scroll }, ..c0 })
        },
        UiLine::Contact(name) => {
            &&& crate::chat::grown(c0.lists.contacts@, c1.lists.contacts@, crate::screen::MAX_CONTACTS as nat)
            &&& c0.lists.contacts@.len() < crate::screen::MAX_CONTACTS ==>
                c1.lists.contacts@.last().name@ == fit(name@, crate::items::NAME_CAPACITY as nat)
            &&& c1 == (Chat { lists: crate::screen::Lists { contacts: c1.lists.contacts, ..c0.lists }, ..c0 })
        },
        UiLine::Favorite(name) => {
            &&& crate::chat::grown(c0.lists.favorites@, c1.lists.favorites@, crate::screen::MAX_FAVORITES as nat)
            &&& c0.lists.favorites@.len() < crate::screen::MAX_FAVORITES ==>
                c1.lists.favorites@.last().name@ == fit(name@, crate::items::NAME_CAPACITY as nat)
            &&& c1 == (Chat { lists: crate::screen::Lists { favorites: c1.lists.favorites, ..c0.lists }, ..c0 })
        },
        UiLine::Incoming(name) => {
            &&& c0.call.phase != crate::items::CallPhase::Idle ==> c1 == c0
            &&& c0.call.phase == crate::items::CallPhase::Idle ==> ({
                &&& c1.call.name@ == crate::screen::filled_field(name@, crate::items::NAME_CAPACITY as nat)
                &&& c1.call.phase == crate::items::CallPhase::Incoming && !c1.call.muted
                &&& c1 == (Chat { call: c1.call, ..c0 })
            })
        },
        UiLine::CallActive => {
            &&& c0.call.phase != crate::items::CallPhase::Ringing ==> c1 == c0
            &&& c0.call.phase == crate::items::CallPhase::Ringing ==> c1.call.phase == crate::items::CallPhase::Active
                && c1 == (Chat { call: c1.call, ..c0 })
        },
        UiLine::CallFailed { title, body } => {
            &&& c1.dialog.title@ == crate::screen::filled_field(title@, crate::screen::DIALOG_TITLE_CAPACITY as nat)
            &&& c1.dialog.body@ == crate::screen::filled_field(body@, crate::screen::DIALOG_BODY_CAPACITY as nat)
            &&& c1.dialog == (crate::screen::Dialog { title: c1.dialog.title, body: c1.dialog.body, open: true, ..c0.dialog })
            &&& c1 == (Chat { call: crate::screen::CallScreen { phase: crate::items::CallPhase::Idle, ..c0.call }, dialog: c1.dialog, ..c0 })
        },
        UiLine::CallEnded(reason) => {
            let calling = c0.call.phase == crate::items::CallPhase::Ringing || c0.call.phase == crate::items::CallPhase::Active;
            &&& (reason@.len() == 0 || !calling) ==> c1 == (Chat { call: crate::screen::CallScreen {
                phase: crate::items::CallPhase::Idle, ..c0.call }, ..c0 })
            &&& (reason@.len() > 0 && calling) ==> c1.call.phase == crate::items::CallPhase::Ended
                && c1.call.reason@ == crate::screen::filled_field(reason@, crate::screen::BANNER_CAPACITY as nat)
                && c1 == (Chat { call: c1.call, ..c0 })
        },
        UiLine::Profile(name) => {
            &&& c1.boxes.profile@ == crate::screen::filled_field(name@, crate::items::NAME_CAPACITY as nat)
            &&& c1 == (Chat { boxes: crate::screen::Boxes { profile: c1.boxes.profile, ..c0.boxes }, ..c0 })
        },
        UiLine::Presence { chat: c, status } => {
            &&& (c >= crate::items::MAX_CHATS || !c0.store.conversations@[c as int].used) ==> c1 == c0
            &&& (c < crate::items::MAX_CHATS && c0.store.conversations@[c as int].used) ==> ({
                &&& c1.store.conversations@[c as int].status@ == fit(status@, crate::items::STATUS_CAPACITY as nat)
                &&& c1.store.conversations@[c as int] == (crate::items::Conversation {
                    status: c1.store.conversations@[c as int].status, ..c0.store.conversations@[c as int] })
                &&& forall|i: int| 0 <= i < crate::items::MAX_CHATS && i != c ==> c1.store.conversations@[i] == c0.store.conversations@[i]
                &&& c1 == (Chat { store: crate::screen::Store { conversations: c1.store.conversations, ..c0.store }, ..c0 })
            })
        },
        UiLine::Msg { chat: c, outgoing, read, time, id, reply, text } => {
            &&& (c >= crate::items::MAX_CHATS || !c0.store.conversations@[c as int].used) ==> c1 == c0
            &&& (c < crate::items::MAX_CHATS && c0.store.conversations@[c as int].used) ==> ({
                &&& messages1.drop_last() == crate::chat_flow::kept_messages(messages0)
                &&& messages1.len() == crate::chat_flow::kept_messages(messages0).len() + 1
                &&& exists|today: u16| crate::chat_flow::fresh(messages1.last(), c, outgoing,
                    crate::chat_flow::delivery_of(read), text@, crate::items::stamp_of(time@),
                    #[trigger] crate::chat_flow::message_day(time@, today), id@, reply@)
            })
        },
        UiLine::Past { chat: c, outgoing, read, time, id, reply, text } => {
            &&& (c >= crate::items::MAX_CHATS || !c0.store.conversations@[c as int].used) ==> c1 == c0
            &&& (c < crate::items::MAX_CHATS && c0.store.conversations@[c as int].used) ==> ({
                let kept = crate::chat_flow::kept_messages(messages0);
                let at = match crate::chat_media::first_of(kept, c as int, 0) { Some(f) => f, None => kept.len() as int };
                let m = messages1[at];
                &&& messages1 == crate::chat_media::moved_first(kept.push(m))
                &&& exists|today: u16| crate::chat_flow::fresh(m, c, outgoing, crate::chat_flow::delivery_of(read), text@,
                    crate::items::stamp_of(time@), #[trigger] crate::chat_flow::message_day(time@, today), id@, reply@)
            })
        },
        UiLine::Media { chat: c, id, kind, width, height, label } => {
            &&& crate::chat_messages::id_position(messages0, c as u8, id@) is None ==> c1 == c0
            &&& crate::chat_messages::id_position(messages0, c as u8, id@) matches Some(i) ==> ({
                &&& messages1[i].label@ == fit(label@, crate::items::LABEL_CAPACITY as nat)
                &&& crate::chat_actions::replaced(messages0, messages1, i, crate::items::Message { kind,
                    media_w: if width > 65535 { 65535u16 } else { width as u16 },
                    media_h: if height > 65535 { 65535u16 } else { height as u16 },
                    label: messages1[i].label, height: messages1[i].height, ..messages0[i] })
                &&& c1 == (Chat { store: crate::screen::Store { messages: c1.store.messages, ..c0.store }, ..c0 })
            })
        },
        UiLine::Thumb { chat: c, id, width, height } => {
            &&& crate::chat_messages::id_position(messages0, c as u8, id@) is None ==> c1 == c0
            &&& crate::chat_messages::id_position(messages0, c as u8, id@) matches Some(i) ==> {
                if width == 0 || height == 0 || width > crate::screen::THUMB_SIDE || height > crate::screen::THUMB_SIDE {
                    c1 == (Chat { thumbs: crate::screen::Thumbs { asked: 0, ..c0.thumbs }, ..c0 })
                } else {
                    let slot = (c0.thumbs.next as int % crate::screen::THUMB_SLOTS as int) as u8;
                    let freed = crate::chat_media::released(messages0, slot);
                    &&& messages1 == freed.update(i, crate::items::Message { slot, thumb: 1, ..freed[i] })
                    &&& c1.thumbs.sizes@ == c0.thumbs.sizes@.update(slot as int, (width as u8, height as u8))
                    &&& c1.thumbs.next == ((slot as int + 1) % crate::screen::THUMB_SLOTS as int) as u8
                }
            }
        },
        UiLine::ThumbRow { chat: c, id, row, hex } => {
            let found = crate::chat_messages::id_position(messages0, c as u8, id@);
            let i = found->0;
            let m = messages0[i];
            let slot = m.slot as int;
            let (width, height) = c0.thumbs.sizes@[slot];
            if found is None || m.thumb != 1 || row >= height || hex@.len() < width * 4 {
                c1 == c0
            } else {
                &&& c1.thumbs.pool@[slot]@ == crate::chat_media::row_written(c0.thumbs.pool@[slot]@, row as int, width as int, hex@)
                &&& forall|s: int| 0 <= s < crate::screen::THUMB_SLOTS && s != slot ==> #[trigger] c1.thumbs.pool@[s] == c0.thumbs.pool@[s]
                &&& (row + 1 == height) ==> messages1 == messages0.update(i, crate::items::Message { thumb: 2, ..m })
            }
        },
        UiLine::ThumbFail { chat: c, id } => {
            &&& crate::chat_messages::id_position(messages0, c as u8, id@) is None ==>
                c1 == (Chat { thumbs: crate::screen::Thumbs { asked: 0, ..c0.thumbs }, ..c0 })
            &&& crate::chat_messages::id_position(messages0, c as u8, id@) matches Some(i) ==>
                messages1 == messages0.update(i, crate::items::Message { thumb: 3, ..messages0[i] })
        },
        UiLine::PastEnd { chat: c, more } => {
            &&& c1.store == (crate::screen::Store { older_asked: 0,
                exhausted: if !more && c < 64 { c0.store.exhausted | (1u64 << (c as u64)) } else { c0.store.exhausted }, ..c0.store })
        },
        UiLine::Revoked { chat: c, id, by_me } => {
            &&& crate::chat_messages::id_position(messages0, c as u8, id@) is None ==> c1 == c0
            &&& crate::chat_messages::id_position(messages0, c as u8, id@) matches Some(i) ==>
                messages1[i].deleted && messages1[i].text@ == (if by_me { "Você apagou esta mensagem"@ } else { "Esta mensagem foi apagada"@ })
        },
        UiLine::Edited { chat: c, id, text } => {
            &&& crate::chat_messages::id_position(messages0, c as u8, id@) is None ==> c1 == c0
            &&& crate::chat_messages::id_position(messages0, c as u8, id@) matches Some(i) ==> (messages0[i].deleted ==> c1 == c0)
                && (!messages0[i].deleted ==> messages1[i].text@ == fit(text@, crate::items::MESSAGE_CAPACITY as nat))
        },
        UiLine::Starred { chat: c, id, starred } => {
            &&& crate::chat_messages::id_position(messages0, c as u8, id@) is None ==> c1 == c0
            &&& crate::chat_messages::id_position(messages0, c as u8, id@) matches Some(i) ==>
                crate::chat_actions::replaced(messages0, messages1, i, crate::items::Message { starred, height: messages1[i].height, ..messages0[i] })
        },
        UiLine::Reactions { chat: c, id, mine, counts } => {
            &&& crate::chat_messages::id_position(messages0, c as u8, id@) is None ==> c1 == c0
            &&& crate::chat_messages::id_position(messages0, c as u8, id@) matches Some(i) ==>
                messages1[i].mine == (if mine@.len() > 0 { mine@[0] as u32 } else { 0 })
                && (messages1[i].tally@, messages1[i].counts@) == crate::chat_actions::pill_of(counts@)
        },
        UiLine::Sent { chat: c, id } => {
            &&& crate::chat_actions::unnamed_sent(messages0, c as int) is None ==> c1 == c0
            &&& crate::chat_actions::unnamed_sent(messages0, c as int) matches Some(i) ==>
                messages1[i].id@ == fit(id@, crate::items::ID_CAPACITY as nat)
        },
        _ => true,
    }
}

/// What a line does to the screen, the notice and the chat.
pub open spec fn applied(parsed: UiLine, s0: Screen, s1: Screen, n0: Notice, n1: Notice, c0: Chat, c1: Chat) -> bool {
    match parsed {
        UiLine::Qr(payload) => {
            &&& (s1 is Login) == (payload@.len() <= MAX_BYTES)
            &&& (s1 is Notice) == (payload@.len() > MAX_BYTES)
            &&& s1 matches Screen::Login(q) ==> exists|m: u8| #[trigger] crate::qr::chosen_mask(crate::qr::codewords_of(payload@), m)
                && crate::qr::is_symbol(q, crate::qr::codewords_of(payload@), m)
            &&& n1 == n0 && c1 == c0
        },
        UiLine::Notice(text) => s1 is Notice && n1.shown() == notice_of(text@) && c1 == c0,
        UiLine::Open => {
            &&& s1 is Chat && n1 == n0
            &&& c1 == (Chat { store: crate::screen::Store { live: true, ..c0.store }, ..c0 })
        },
        _ => s1 == s0 && n1 == n0 && chat_applied(parsed, c0, c1),
    }
}


/// Does what a line from the core says. A pairing code that does not fit leaves the notice screen.
#[verifier::spinoff_prover]
#[verifier::rlimit(100)]
pub fn apply_line(parsed: UiLine, screen: &mut Screen, notice: &mut Notice, chat: &mut Chat)
    requires
        old(chat).wf(),
    ensures
        final(chat).wf(),
        applied(parsed, *old(screen), *final(screen), *old(notice), *final(notice), *old(chat), *final(chat)),
{
    match parsed {
        UiLine::Qr(payload) => {
            *screen = match encode(payload.as_slice()) {
                Some(qr) => Screen::Login(qr),
                None => Screen::Notice,
            };
        },
        UiLine::Notice(text) => {
            notice.set(text.as_str());
            *screen = Screen::Notice;
        },
        UiLine::Reset => chat.reset(),
        UiLine::Open => {
            chat.go_live();
            *screen = Screen::Chat;
        },
        UiLine::Delivered(c) => chat.mark_delivered(c),
        UiLine::Read(c) => chat.mark_read(c),
        UiLine::Status(text) => chat.set_banner(text.as_str()),
        UiLine::Chat { id, unread, time, name, status } => chat.set_conversation(id, unread, time.as_str(), name.as_str(), status.as_str()),
        UiLine::Call { kind, count, time, name } => chat.add_call(kind, count, time.as_str(), name.as_str()),
        UiLine::Story { segments, unseen, time, name } => chat.add_story(segments, unseen, time.as_str(), name.as_str()),
        UiLine::MyStory(time) => chat.set_my_status(time.as_str()),
        UiLine::Channel { unread, time, name, preview } => chat.add_channel(unread, time.as_str(), name.as_str(), preview.as_str()),
        UiLine::Suggest { verified, followers, name } => chat.add_suggestion(verified, followers.as_str(), name.as_str()),
        UiLine::ShowChat(c) => chat.show_chat(c),
        UiLine::ContactReset => chat.clear_contacts(),
        UiLine::Contact(name) => chat.add_contact(name.as_str()),
        UiLine::Incoming(name) => chat.incoming_call(name.as_str()),
        UiLine::CallActive => chat.call_connected(),
        UiLine::CallFailed { title, body } => chat.call_failed(title.as_str(), body.as_str()),
        UiLine::CallEnded(reason) => chat.call_ended(reason.as_str()),
        UiLine::NewCall { kind, count, time, name } => chat.add_call_first(kind, count, time.as_str(), name.as_str()),
        UiLine::Profile(name) => chat.set_profile(name.as_str()),
        UiLine::Favorite(name) => chat.add_favorite(name.as_str()),
        UiLine::Presence { chat: c, status } => chat.set_status(c, status.as_str()),
        UiLine::Msg { chat: c, outgoing, read, time, id, reply, text } =>
            chat.receive(c, outgoing, read, time.as_str(), id.as_str(), reply.as_str(), text.as_str()),
        UiLine::Past { chat: c, outgoing, read, time, id, reply, text } =>
            chat.receive_older(c, outgoing, read, time.as_str(), id.as_str(), reply.as_str(), text.as_str()),
        UiLine::Media { chat: c, id, kind, width, height, label } => chat.set_media(c, id.as_str(), kind, width, height, label.as_str()),
        UiLine::Thumb { chat: c, id, width, height } => chat.thumb_start(c, id.as_str(), width, height),
        UiLine::ThumbRow { chat: c, id, row, hex } => chat.thumb_row(c, id.as_str(), row, hex.as_slice()),
        UiLine::ThumbFail { chat: c, id } => chat.thumb_failed(c, id.as_str()),
        UiLine::PastEnd { chat: c, more } => chat.older_done(c, more),
        UiLine::Revoked { chat: c, id, by_me } => chat.mark_deleted(c, id.as_str(), by_me),
        UiLine::Edited { chat: c, id, text } => chat.set_text(c, id.as_str(), text.as_str()),
        UiLine::Starred { chat: c, id, starred } => chat.set_starred(c, id.as_str(), starred),
        UiLine::Reactions { chat: c, id, mine, counts } => chat.set_reactions(c, id.as_str(), mine.as_str(), counts.as_str()),
        UiLine::Sent { chat: c, id } => chat.set_sent_id(c, id.as_str()),
    }
}

/// One line from the core process (without its line break): read, then done; a line that does not
/// read changes nothing.
pub fn handle_line(line: &str, screen: &mut Screen, notice: &mut Notice, chat: &mut Chat)
    requires
        old(chat).wf(),
    ensures
        final(chat).wf(),
        reads_as(line@, None) ==> *final(screen) == *old(screen) && *final(notice) == *old(notice) && *final(chat) == *old(chat),
        !reads_as(line@, None) ==> exists|parsed: UiLine| #[trigger] reads_as(line@, Some(parsed))
            && applied(parsed, *old(screen), *final(screen), *old(notice), *final(notice), *old(chat), *final(chat)),
{
    match parse_line(line) {
        Some(parsed) => {
            let ghost read = parsed;
            apply_line(parsed, screen, notice, chat);
            assert(reads_as(line@, Some(read)));
        },
        None => {},
    }
}

} // verus!
