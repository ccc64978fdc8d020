//! The line protocol between the core process and the ui: fields separated by tabs, the last one free
//! text. What the ui sends is read here (`parse_command`); the clock fields of what it is told are made here.

use vstd::prelude::*;
use crate::text::{slice_chars, starts_with, has_prefix, same_chars, string_of, chars_of, digit, decimal, signed_decimal, push_decimal, div_rem_euclid, digit_char};

verus! {

/// Brazil is one time zone for practical purposes: Brasilia time, UTC-3, no daylight saving.
pub const BRASILIA_OFFSET_SECONDS: i64 = -10800;

/// A command typed in the ui.
pub enum Command {
    Send { chat: usize, text: String },
    /// Delete for everyone the message of ours with this id.
    Delete { chat: usize, id: String },
    /// An emoji reaction on the message with this id; an empty emoji takes the reaction back.
    React { chat: usize, id: String, emoji: String },
    Star { chat: usize, id: String, starred: bool },
    MarkRead { chat: usize },
    Older { chat: usize, id: String },
    Thumb { chat: usize, id: String },
    Edit { chat: usize, id: String, text: String },
    Mute { chat: usize, muted: bool },
    ClearChat { chat: usize },
    DeleteChat { chat: usize },
    /// A text that answers the message with this id.
    Reply { chat: usize, id: String, text: String },
    /// The ui placed a voice call to `name`.
    Dial { name: String },
    Answer,
    Hangup,
    /// The ui shows the new-conversation panel and wants the contacts that match `query`.
    Contacts { query: String },
    /// The ui picked a contact that has no conversation yet.
    OpenChat { name: String },
}

/// A command as plain values: its texts as characters.
pub enum CommandView {
    Send { chat: usize, text: Seq<char> },
    Delete { chat: usize, id: Seq<char> },
    React { chat: usize, id: Seq<char>, emoji: Seq<char> },
    Star { chat: usize, id: Seq<char>, starred: bool },
    MarkRead { chat: usize },
    Older { chat: usize, id: Seq<char> },
    Thumb { chat: usize, id: Seq<char> },
    Edit { chat: usize, id: Seq<char>, text: Seq<char> },
    Mute { chat: usize, muted: bool },
    ClearChat { chat: usize },
    DeleteChat { chat: usize },
    Reply { chat: usize, id: Seq<char>, text: Seq<char> },
    Dial { name: Seq<char> },
    Answer,
    Hangup,
    Contacts { query: Seq<char> },
    OpenChat { name: Seq<char> },
}

impl View for Command {
    type V = CommandView;

    open spec fn view(&self) -> CommandView {
        match self {
            Command::Send { chat, text } => CommandView::Send { chat: *chat, text: text@ },
            Command::Delete { chat, id } => CommandView::Delete { chat: *chat, id: id@ },
            Command::React { chat, id, emoji } => CommandView::React { chat: *chat, id: id@, emoji: emoji@ },
            Command::Star { chat, id, starred } => CommandView::Star { chat: *chat, id: id@, starred: *starred },
            Command::MarkRead { chat } => CommandView::MarkRead { chat: *chat },
            Command::Older { chat, id } => CommandView::Older { chat: *chat, id: id@ },
            Command::Thumb { chat, id } => CommandView::Thumb { chat: *chat, id: id@ },
            Command::Edit { chat, id, text } => CommandView::Edit { chat: *chat, id: id@, text: text@ },
            Command::Mute { chat, muted } => CommandView::Mute { chat: *chat, muted: *muted },
            Command::ClearChat { chat } => CommandView::ClearChat { chat: *chat },
            Command::DeleteChat { chat } => CommandView::DeleteChat { chat: *chat },
            Command::Reply { chat, id, text } => CommandView::Reply { chat: *chat, id: id@, text: text@ },
            Command::Dial { name } => CommandView::Dial { name: name@ },
            Command::Answer => CommandView::Answer,
            Command::Hangup => CommandView::Hangup,
            Command::Contacts { query } => CommandView::Contacts { query: query@ },
            Command::OpenChat { name } => CommandView::OpenChat { name: name@ },
        }
    }
}

// ---- fields of a line

/// `i` is where the first field of `s` ends: at its first tab, or at its end when it has none.
pub open spec fn is_field_end(s: Seq<char>, i: int) -> bool {
    &&& 0 <= i <= s.len()
    &&& i < s.len() ==> s[i] == '\t'
    &&& forall|j: int| 0 <= j < i ==> s[j] != '\t'
}

pub open spec fn field_end(s: Seq<char>) -> int {
    choose|i: int| is_field_end(s, i)
}

/// The first field of `s`: everything before its first tab.
pub open spec fn head(s: Seq<char>) -> Seq<char> {
    s.take(field_end(s))
}

/// Everything after the first tab of `s`, when it has one.
pub open spec fn tail(s: Seq<char>) -> Option<Seq<char>> {
    if field_end(s) < s.len() {
        Some(s.skip(field_end(s) + 1))
    } else {
        None
    }
}

proof fn lemma_field_end(s: Seq<char>, i: int)
    requires
        is_field_end(s, i),
    ensures
        field_end(s) == i,
{
    let k = field_end(s);
    assert(is_field_end(s, k));
    if k < i {
        assert(s[k] != '\t');
    }
    if i < k {
        assert(s[i] != '\t');
    }
}

/// The first field of `s` and what follows its tab.
pub fn split_field(s: &[char]) -> (parts: (Vec<char>, Option<Vec<char>>))
    ensures
        parts.0@ == head(s@),
        parts.1 is Some == tail(s@) is Some,
        parts.1 matches Some(rest) ==> tail(s@) == Some(rest@),
{
    let mut i: usize = 0;
    while i < s.len() && s[i] != '\t'
        invariant
            0 <= i <= s@.len(),
            forall|j: int| 0 <= j < i ==> s@[j] != '\t',
        decreases s@.len() - i,
    {
        i = i + 1;
    }
    proof {
        lemma_field_end(s@, i as int);
    }
    let first = slice_chars(s, 0, i);
    assert(first@ =~= head(s@));
    if i < s.len() {
        let rest = slice_chars(s, i + 1, s.len());
        assert(rest@ =~= s@.skip(i + 1));
        (first, Some(rest))
    } else {
        (first, None)
    }
}

// ---- numbers

pub open spec fn is_digit(c: char) -> bool {
    '0' <= c <= '9'
}

/// The value of a run of decimal digits.
pub open spec fn digits_value(s: Seq<char>) -> nat
    decreases s.len(),
{
    if s.len() == 0 {
        0
    } else {
        digits_value(s.drop_last()) * 10 + (s.last() as nat - 48) as nat
    }
}

/// `s` without the `+` it may start with.
pub open spec fn unsigned_part(s: Seq<char>) -> Seq<char> {
    if s.len() > 0 && s[0] == '+' {
        s.drop_first()
    } else {
        s
    }
}

pub open spec fn all_digits(s: Seq<char>) -> bool {
    forall|i: int| 0 <= i < s.len() ==> is_digit(#[trigger] s[i])
}

/// What `usize`'s `parse` makes of `s`: an optional `+`, then at least one digit, and no more than fits.
pub open spec fn number(s: Seq<char>) -> Option<usize> {
    let digits = unsigned_part(s);
    if digits.len() > 0 && all_digits(digits) && digits_value(digits) <= usize::MAX {
        Some(digits_value(digits) as usize)
    } else {
        None
    }
}

proof fn lemma_digits_grow(s: Seq<char>, j: int, k: int)
    requires
        0 <= j <= k <= s.len(),
        forall|i: int| 0 <= i < s.len() ==> is_digit(#[trigger] s[i]),
    ensures
        digits_value(s.take(j)) <= digits_value(s.take(k)),
    decreases k - j,
{
    if j < k {
        lemma_digits_grow(s, j, k - 1);
        assert(s.take(k).drop_last() =~= s.take(k - 1));
    }
}

/// `s` read as a `usize` the way `str::parse` reads it.
pub fn parse_number(s: &[char]) -> (value: Option<usize>)
    ensures
        value == number(s@),
{
    let start: usize = if s.len() > 0 && s[0] == '+' { 1 } else { 0 };
    let ghost digits = unsigned_part(s@);
    assert(digits =~= s@.skip(start as int));
    if start == s.len() {
        return None;
    }
    let mut value: usize = 0;
    let mut i: usize = start;
    while i < s.len()
        invariant
            start <= i <= s@.len(),
            digits == s@.skip(start as int),
            digits == unsigned_part(s@),
            forall|j: int| start <= j < i ==> is_digit(#[trigger] s@[j]),
            value == digits_value(digits.take(i - start)),
        decreases s@.len() - i,
    {
        let c = s[i];
        assert(digits[i - start] == s@[i as int]);
        if !('0' <= c && c <= '9') {
            assert(!is_digit(digits[i - start]));
            assert(!all_digits(digits));
            assert(number(s@) is None);
            return None;
        }
        let d = (c as u32 - 48) as usize;
        assert(digits.take(i + 1 - start).drop_last() =~= digits.take(i - start));
        assert(digits.take(i + 1 - start).last() == c);
        let ghost next_value = digits_value(digits.take(i + 1 - start));
        assert(next_value == value * 10 + d);
        let checked = match value.checked_mul(10) {
            Some(times) => times.checked_add(d),
            None => None,
        };
        match checked {
            Some(next) => {
                value = next;
            }
            None => {
                proof {
                    assert(next_value > usize::MAX);
                    if all_digits(digits) {
                        lemma_digits_grow(digits, i + 1 - start, digits.len() as int);
                        assert(digits.take(digits.len() as int) =~= digits);
                        assert(digits_value(digits) > usize::MAX);
                    }
                    assert(number(s@) is None);
                }
                return None;
            }
        }
        i = i + 1;
    }
    assert(digits.take(i - start) =~= digits);
    Some(value)
}

// ---- commands

/// What follows `prefix` in `line`, when `line` starts with it.
pub open spec fn after(line: Seq<char>, prefix: Seq<char>) -> Option<Seq<char>> {
    if starts_with(line, prefix) {
        Some(line.skip(prefix.len() as int))
    } else {
        None
    }
}

/// A chat number, then the rest after a tab.
pub open spec fn chat_and_rest(rest: Seq<char>) -> Option<(usize, Seq<char>)> {
    match (number(head(rest)), tail(rest)) {
        (Some(chat), Some(second)) => Some((chat, second)),
        _ => None,
    }
}

/// A chat number, a field, then the rest after a second tab.
pub open spec fn chat_and_two(rest: Seq<char>) -> Option<(usize, Seq<char>, Seq<char>)> {
    match chat_and_rest(rest) {
        Some((chat, second)) => match tail(second) {
            Some(third) => Some((chat, head(second), third)),
            None => None,
        },
        None => None,
    }
}

/// The commands that end in free fields (`SEND`, `DIAL`...): the first three tab-separated fields of `line`.
pub open spec fn plain_command(line: Seq<char>) -> Option<CommandView> {
    let word = head(line);
    let second = match tail(line) { Some(t) => Some(head(t)), None => None };
    let third = match tail(line) { Some(t) => tail(t), None => None };
    if word == "SEND"@ && second is Some && third is Some {
        match number(second->0) {
            Some(chat) => Some(CommandView::Send { chat, text: third->0 }),
            None => None,
        }
    } else if word == "DIAL"@ && second is Some && third is None {
        Some(CommandView::Dial { name: second->0 })
    } else if word == "ANSWER"@ && second is None {
        Some(CommandView::Answer)
    } else if word == "HANGUP"@ && second is None {
        Some(CommandView::Hangup)
    } else if word == "OPENCHAT"@ && second is Some && third is None {
        Some(CommandView::OpenChat { name: second->0 })
    } else if word == "CONTACTS"@ && second is Some && third is None {
        Some(CommandView::Contacts { query: second->0 })
    } else {
        None
    }
}

/// The command a line from the ui carries, if it is one.
pub open spec fn command_of(line: Seq<char>) -> Option<CommandView> {
    if let Some(rest) = after(line, "DELETE\t"@) {
        match chat_and_rest(rest) {
            Some((chat, id)) => Some(CommandView::Delete { chat, id }),
            None => None,
        }
    } else if let Some(rest) = after(line, "REACT\t"@) {
        match chat_and_two(rest) {
            Some((chat, id, emoji)) => Some(CommandView::React { chat, id, emoji }),
            None => None,
        }
    } else if let Some(rest) = after(line, "THUMB\t"@) {
        match chat_and_rest(rest) {
            Some((chat, id)) => Some(CommandView::Thumb { chat, id }),
            None => None,
        }
    } else if let Some(rest) = after(line, "OLDER\t"@) {
        match chat_and_rest(rest) {
            Some((chat, id)) => Some(CommandView::Older { chat, id }),
            None => None,
        }
    } else if let Some(rest) = after(line, "EDIT\t"@) {
        match chat_and_two(rest) {
            Some((chat, id, text)) => Some(CommandView::Edit { chat, id, text }),
            None => None,
        }
    } else if let Some(rest) = after(line, "MUTE\t"@) {
        match chat_and_rest(rest) {
            Some((chat, flag)) => Some(CommandView::Mute { chat, muted: flag == "1"@ }),
            None => None,
        }
    } else if let Some(rest) = after(line, "DELETECHAT\t"@) {
        match number(rest) {
            Some(chat) => Some(CommandView::DeleteChat { chat }),
            None => None,
        }
    } else if let Some(rest) = after(line, "CLEARCHAT\t"@) {
        match number(rest) {
            Some(chat) => Some(CommandView::ClearChat { chat }),
            None => None,
        }
    } else if let Some(rest) = after(line, "MARKREAD\t"@) {
        match number(rest) {
            Some(chat) => Some(CommandView::MarkRead { chat }),
            None => None,
        }
    } else if let Some(rest) = after(line, "STAR\t"@) {
        match chat_and_two(rest) {
            Some((chat, id, flag)) => Some(CommandView::Star { chat, id, starred: flag == "1"@ }),
            None => None,
        }
    } else if let Some(rest) = after(line, "REPLY\t"@) {
        match chat_and_two(rest) {
            Some((chat, id, text)) => Some(CommandView::Reply { chat, id, text }),
            None => None,
        }
    } else {
        plain_command(line)
    }
}

/// What follows `prefix` in `line`, when `line` starts with it.
fn strip(line: &[char], prefix: &str) -> (rest: Option<Vec<char>>)
    ensures
        rest is Some == after(line@, prefix@) is Some,
        rest matches Some(r) ==> after(line@, prefix@) == Some(r@),
{
    let prefix = chars_of(prefix);
    if has_prefix(line, prefix.as_slice()) {
        let rest = slice_chars(line, prefix.len(), line.len());
        assert(rest@ =~= line@.skip(prefix@.len() as int));
        Some(rest)
    } else {
        None
    }
}

fn read_chat_and_rest(rest: &[char]) -> (parsed: Option<(usize, Vec<char>)>)
    ensures
        parsed is Some == chat_and_rest(rest@) is Some,
        parsed matches Some((chat, second)) ==> chat_and_rest(rest@) == Some((chat, second@)),
{
    let (first, second) = split_field(rest);
    match (parse_number(first.as_slice()), second) {
        (Some(chat), Some(second)) => Some((chat, second)),
        _ => None,
    }
}

fn read_chat_and_two(rest: &[char]) -> (parsed: Option<(usize, Vec<char>, Vec<char>)>)
    ensures
        parsed is Some == chat_and_two(rest@) is Some,
        parsed matches Some((chat, second, third)) ==> chat_and_two(rest@) == Some((chat, second@, third@)),
{
    match read_chat_and_rest(rest) {
        Some((chat, second)) => {
            let (middle, third) = split_field(second.as_slice());
            match third {
                Some(third) => Some((chat, middle, third)),
                None => None,
            }
        }
        None => None,
    }
}

fn is_word(field: &[char], word: &str) -> (same: bool)
    ensures
        same == (field@ == word@),
{
    let word = chars_of(word);
    same_chars(field, word.as_slice())
}

fn parse_plain(line: &[char]) -> (command: Option<Command>)
    ensures
        command is Some == plain_command(line@) is Some,
        command matches Some(c) ==> plain_command(line@) == Some(c@),
{
    let (word, rest) = split_field(line);
    let (second, third) = match rest {
        Some(rest) => {
            let (second, third) = split_field(rest.as_slice());
            (Some(second), third)
        }
        None => (None, None),
    };
    match (second, third) {
        (Some(second), Some(third)) => {
            if is_word(word.as_slice(), "SEND") {
                match parse_number(second.as_slice()) {
                    Some(chat) => Some(Command::Send { chat, text: string_of(third.as_slice()) }),
                    None => None,
                }
            } else {
                assert(!(word@ == "DIAL"@ || word@ == "OPENCHAT"@ || word@ == "CONTACTS"@) || plain_command(line@) is None);
                None
            }
        }
        (Some(second), None) => {
            if is_word(word.as_slice(), "DIAL") {
                Some(Command::Dial { name: string_of(second.as_slice()) })
            } else if is_word(word.as_slice(), "OPENCHAT") {
                Some(Command::OpenChat { name: string_of(second.as_slice()) })
            } else if is_word(word.as_slice(), "CONTACTS") {
                Some(Command::Contacts { query: string_of(second.as_slice()) })
            } else {
                None
            }
        }
        _ => {
            if is_word(word.as_slice(), "ANSWER") {
                Some(Command::Answer)
            } else if is_word(word.as_slice(), "HANGUP") {
                Some(Command::Hangup)
            } else {
                None
            }
        }
    }
}

/// The command a line typed in the ui carries; `None` for a line that is not one.
pub fn parse_command(line: &str) -> (command: Option<Command>)
    ensures
        command is Some == command_of(line@) is Some,
        command matches Some(c) ==> command_of(line@) == Some(c@),
{
    let line = chars_of(line);
    let line = line.as_slice();
    if let Some(rest) = strip(line, "DELETE\t") {
        return match read_chat_and_rest(rest.as_slice()) {
            Some((chat, id)) => Some(Command::Delete { chat, id: string_of(id.as_slice()) }),
            None => None,
        };
    }
    if let Some(rest) = strip(line, "REACT\t") {
        return match read_chat_and_two(rest.as_slice()) {
            Some((chat, id, emoji)) => Some(Command::React { chat, id: string_of(id.as_slice()), emoji: string_of(emoji.as_slice()) }),
            None => None,
        };
    }
    if let Some(rest) = strip(line, "THUMB\t") {
        return match read_chat_and_rest(rest.as_slice()) {
            Some((chat, id)) => Some(Command::Thumb { chat, id: string_of(id.as_slice()) }),
            None => None,
        };
    }
    if let Some(rest) = strip(line, "OLDER\t") {
        return match read_chat_and_rest(rest.as_slice()) {
            Some((chat, id)) => Some(Command::Older { chat, id: string_of(id.as_slice()) }),
            None => None,
        };
    }
    if let Some(rest) = strip(line, "EDIT\t") {
        return match read_chat_and_two(rest.as_slice()) {
            Some((chat, id, text)) => Some(Command::Edit { chat, id: string_of(id.as_slice()), text: string_of(text.as_slice()) }),
            None => None,
        };
    }
    if let Some(rest) = strip(line, "MUTE\t") {
        return match read_chat_and_rest(rest.as_slice()) {
            Some((chat, flag)) => Some(Command::Mute { chat, muted: is_word(flag.as_slice(), "1") }),
            None => None,
        };
    }
    if let Some(rest) = strip(line, "DELETECHAT\t") {
        return match parse_number(rest.as_slice()) {
            Some(chat) => Some(Command::DeleteChat { chat }),
            None => None,
        };
    }
    if let Some(rest) = strip(line, "CLEARCHAT\t") {
        return match parse_number(rest.as_slice()) {
            Some(chat) => Some(Command::ClearChat { chat }),
            None => None,
        };
    }
    if let Some(rest) = strip(line, "MARKREAD\t") {
        return match parse_number(rest.as_slice()) {
            Some(chat) => Some(Command::MarkRead { chat }),
            None => None,
        };
    }
    if let Some(rest) = strip(line, "STAR\t") {
        return match read_chat_and_two(rest.as_slice()) {
            Some((chat, id, flag)) => Some(Command::Star { chat, id: string_of(id.as_slice()), starred: is_word(flag.as_slice(), "1") }),
            None => None,
        };
    }
    if let Some(rest) = strip(line, "REPLY\t") {
        return match read_chat_and_two(rest.as_slice()) {
            Some((chat, id, text)) => Some(Command::Reply { chat, id: string_of(id.as_slice()), text: string_of(text.as_slice()) }),
            None => None,
        };
    }
    parse_plain(line)
}

// ---- the clock

/// Two digits of `n` (which is below 100).
pub open spec fn two_digits(n: int) -> Seq<char> {
    seq![digit(n / 10), digit(n % 10)]
}

/// "HH:MM" of `unix_seconds` in Brasilia time.
pub open spec fn clock_text(unix_seconds: int) -> Seq<char> {
    let day = (unix_seconds + BRASILIA_OFFSET_SECONDS) % 86400;
    two_digits(day / 3600) + seq![':'] + two_digits(day % 3600 / 60)
}

/// The day of `unix_seconds` in Brasilia time, counted from 1970-01-01.
pub open spec fn day_number(unix_seconds: int) -> int {
    (unix_seconds + BRASILIA_OFFSET_SECONDS) / 86400
}

/// The clock, a space, and the day number.
pub open spec fn stamp_text(unix_seconds: int) -> Seq<char> {
    clock_text(unix_seconds) + seq![' '] + signed_decimal(day_number(unix_seconds))
}

fn push_two_digits(n: i64, out: &mut Vec<char>)
    requires
        0 <= n < 100,
    ensures
        final(out)@ == old(out)@ + two_digits(n as int),
{
    out.push(digit_char((n / 10) as u64));
    out.push(digit_char((n % 10) as u64));
    assert(final(out)@ =~= old(out)@ + two_digits(n as int));
}

fn push_clock(unix_seconds: i64, out: &mut Vec<char>)
    requires
        unix_seconds >= i64::MIN + 10800,
    ensures
        final(out)@ == old(out)@ + clock_text(unix_seconds as int),
{
    let (_, day) = div_rem_euclid(unix_seconds + BRASILIA_OFFSET_SECONDS, 86400);
    push_two_digits(day / 3600, out);
    out.push(':');
    push_two_digits(day % 3600 / 60, out);
    assert(final(out)@ =~= old(out)@ + clock_text(unix_seconds as int));
}

/// "HH:MM" of `unix_seconds` in Brasilia time.
pub fn clock_at(unix_seconds: i64) -> (text: String)
    requires
        unix_seconds >= i64::MIN + 10800,
    ensures
        text@ == clock_text(unix_seconds as int),
{
    let mut out: Vec<char> = Vec::new();
    push_clock(unix_seconds, &mut out);
    assert(out@ =~= clock_text(unix_seconds as int));
    string_of(out.as_slice())
}

/// Appends `n` in decimal, with a minus sign when it is negative.
pub fn push_signed(n: i64, out: &mut Vec<char>)
    ensures
        final(out)@ == old(out)@ + signed_decimal(n as int),
{
    if n < 0 {
        out.push('-');
        let magnitude: u64 = (-(n + 1)) as u64 + 1;
        push_decimal(magnitude, out);
        assert(final(out)@ =~= old(out)@ + signed_decimal(n as int));
    } else {
        push_decimal(n as u64, out);
    }
}

/// The `time` field of `MSG` and `PAST`: the time of day and, after a space, the calendar day (days
/// since 1970-01-01, Brasilia time), which the ui turns into the chip above the day's messages.
pub fn stamp_at(unix_seconds: i64) -> (text: String)
    requires
        unix_seconds >= i64::MIN + 10800,
    ensures
        text@ == stamp_text(unix_seconds as int),
{
    let mut out: Vec<char> = Vec::new();
    push_clock(unix_seconds, &mut out);
    out.push(' ');
    let (day, _) = div_rem_euclid(unix_seconds + BRASILIA_OFFSET_SECONDS, 86400);
    push_signed(day, &mut out);
    assert(out@ =~= stamp_text(unix_seconds as int));
    string_of(out.as_slice())
}

#[verifier::external_type_specification]
#[verifier::external_body]
pub struct ExSystemTime(std::time::SystemTime);

#[verifier::external_type_specification]
#[verifier::external_body]
pub struct ExSystemTimeError(std::time::SystemTimeError);

/// `SystemTime::now`: what the machine's clock reads. Nothing is promised of the reading.
#[verifier::external_body]
fn clock_reading() -> std::time::SystemTime {
    std::time::SystemTime::now()
}

/// `SystemTime::duration_since` with `UNIX_EPOCH`: how long after 1970-01-01 `reading` is, or an
/// error when it is before. Nothing is promised of the length.
#[verifier::external_body]
fn since_epoch(reading: &std::time::SystemTime) -> std::result::Result<std::time::Duration, std::time::SystemTimeError> {
    reading.duration_since(std::time::UNIX_EPOCH)
}

/// `Duration::as_secs`: the whole seconds of `elapsed`. Nothing is promised of the count.
#[verifier::external_body]
fn whole_seconds(elapsed: &std::time::Duration) -> u64 {
    elapsed.as_secs()
}

/// Seconds since 1970-01-01 on the machine's clock; 0 if the clock is set before that.
pub(crate) fn unix_seconds() -> (seconds: u64) {
    let reading = clock_reading();
    match since_epoch(&reading) {
        Ok(elapsed) => whole_seconds(&elapsed),
        Err(_) => 0,
    }
}

/// The time of day now, in Brasilia.
pub fn clock() -> (text: String)
    ensures
        exists|unix_seconds: int| 0 <= unix_seconds <= i64::MAX && text@ == #[trigger] clock_text(unix_seconds),
{
    let seconds = unix_seconds();
    let now: i64 = if seconds > 0x7fff_ffff_ffff_ffff { 0x7fff_ffff_ffff_ffff } else { seconds as i64 };
    let text = clock_at(now);
    assert(text@ == clock_text(now as int));
    text
}

// ---- contacts

/// The lines of a `CONTACTS` answer for names `names`.
pub open spec fn contacts_lines(names: Seq<Seq<char>>) -> Seq<Seq<Seq<char>>> {
    seq![seq!["CONTACTRESET"@]] + names.map_values(|name: Seq<char>| seq!["CONTACT"@, name])
}

/// What the ui is told when it asks for contacts: it forgets its list, then gets the matches.
pub fn contacts_reply(names: &[&str]) -> (lines: Vec<Vec<String>>)
    ensures
        lines.deep_view() == contacts_lines(names@.map_values(|name: &str| name@)),
{
    let mut lines: Vec<Vec<String>> = Vec::new();
    let mut reset: Vec<String> = Vec::new();
    reset.push("CONTACTRESET".to_owned());
    lines.push(reset);
    assert(lines.deep_view() =~~= contacts_lines(names@.map_values(|name: &str| name@).take(0)));
    let ghost views = names@.map_values(|name: &str| name@);
    let mut i: usize = 0;
    while i < names.len()
        invariant
            0 <= i <= names@.len(),
            views == names@.map_values(|name: &str| name@),
            lines.deep_view() == contacts_lines(views.take(i as int)),
        decreases names@.len() - i,
    {
        let mut line: Vec<String> = Vec::new();
        line.push("CONTACT".to_owned());
        line.push(names[i].to_owned());
        assert(line.deep_view() =~= seq!["CONTACT"@, views[i as int]]);
        let ghost before = lines.deep_view();
        lines.push(line);
        assert(lines.deep_view() =~= before.push(seq!["CONTACT"@, views[i as int]]));
        assert(views.take(i + 1).drop_last() =~= views.take(i as int));
        assert(lines.deep_view() =~~= contacts_lines(views.take(i + 1)));
        i = i + 1;
    }
    assert(views.take(i as int) =~= views);
    lines
}

} // verus!
