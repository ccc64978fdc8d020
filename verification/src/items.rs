//! What the lists of the chat screen hold: list rows, conversations, calls and messages, and the
//! small rules about text that go with them (phone numbers, initials, finding text, dead keys).

use vstd::prelude::*;
use crate::text::{chars_of, string_of, fit, fit_chars, fold, folded, fold_all, fold_char, occurs_at, occurs_at_exec,
    is_ascii_lowercase, trim, trim_chars, on_boundary, char_at_byte, byte_at_char, lemma_char_at_byte_of,
    lemma_char_at_byte_range, lemma_byte_at_char_order};
use crate::link::{number, parse_number};

verus! {

pub const MAX_CHATS: usize = 48;
/// Kinds of emoji a message shows in its reaction pill.
pub const TALLY: usize = 3;
/// Kinds of what a message carries, as the `MEDIA` line numbers them.
pub const MEDIA_IMAGE: u8 = 1;
pub const MEDIA_VIDEO: u8 = 2;
pub const MEDIA_AUDIO: u8 = 3;
pub const MEDIA_DOCUMENT: u8 = 4;
pub const MEDIA_STICKER: u8 = 5;
pub const LABEL_CAPACITY: usize = 40;
/// Width of a photo's box, and the bounds of its height; voice and document boxes have fixed sizes.
pub const MEDIA_W: i32 = 240;
pub const MEDIA_MIN_H: i32 = 90;
pub const MEDIA_MAX_H: i32 = 300;
pub const AUDIO_H: i32 = 44;
pub const DOCUMENT_H: i32 = 60;
pub const ID_CAPACITY: usize = 24;
pub const MESSAGE_CAPACITY: usize = 240;
pub const NAME_CAPACITY: usize = 40;
pub const STATUS_CAPACITY: usize = 48;
pub const TIME_CAPACITY: usize = 20;
pub const TEXT_CAPACITY: usize = 96;
/// The most digits a phone number can have (E.164).
pub const PHONE_DIGITS: usize = 15;
/// The name of the conversation with ourselves.
pub const SELF_CHAT: &'static str = "Você";

/// Text cut to fit `capacity` bytes, at a character boundary.
pub fn store(text: &str, capacity: usize) -> (stored: String)
    ensures
        stored@ == fit(text@, capacity as nat),
{
    string_of(fit_chars(chars_of(text).as_slice(), capacity).as_slice())
}

/// Where a voice call stands.
#[derive(Clone, Copy, PartialEq, Eq, Structural, Debug)]
pub enum CallPhase {
    Idle,
    /// Someone is calling us.
    Incoming,
    /// We are calling and the other side has not picked up.
    Ringing,
    Active,
    /// Over: the screen stays a moment with the reason (no answer, busy, declined) before it closes.
    Ended,
}

/// The screens of the icon rail.
#[derive(Clone, Copy, PartialEq, Eq, Structural, Debug)]
pub enum Tab {
    Chats,
    Calls,
    Status,
    Channels,
    Settings,
}

#[derive(Clone, Copy, PartialEq, Eq, Structural, Debug)]
pub enum Focus {
    Message,
    Search,
    /// The bar that looks for text in the open conversation.
    Find,
}

#[derive(Clone, Copy, PartialEq, Eq, Structural, Debug)]
pub enum CallKind {
    Received,
    Missed,
    Outgoing,
}

/// How far a message we sent has got: one grey tick, two grey ticks, two blue ticks.
#[derive(Clone, Copy, PartialEq, Eq, Structural, Debug)]
pub enum Delivery {
    Sent,
    Delivered,
    Read,
}

/// The rows of the status screen, in drawing order.
#[derive(Clone, Copy, PartialEq, Eq, Structural, Debug)]
pub enum StatusItem {
    Mine,
    RecentLabel,
    SeenLabel,
    Story(usize),
}

/// The rows of the new-conversation panel, in drawing order.
#[derive(Clone, Copy, PartialEq, Eq, Structural, Debug)]
pub enum ContactsItem {
    Action(usize),
    Myself,
    Letter(char),
    Contact(usize),
    /// The number typed in the search box, as a conversation to start.
    Number,
}

/// The rows of the channels screen, in drawing order.
#[derive(Clone, Copy, PartialEq, Eq, Structural, Debug)]
pub enum ChannelsItem {
    Followed(usize),
    SuggestionsHeader,
    Suggestion(usize),
    DiscoverBar,
}

/// One row of the calls screen, in the order it is drawn.
#[derive(Clone, Copy, PartialEq, Eq, Structural, Debug)]
pub enum CallsItem {
    FavoritesHeader,
    Favorite(usize),
    RecentsHeader,
    Recent(usize),
}

/// A line of one of the list screens: a name, a second line of text, a time, and two numbers whose
/// meaning belongs to the screen (segments and unseen for a status, unread for a channel).
pub struct Item {
    pub first: u16,
    pub second: u16,
    pub flag: bool,
    pub name: String,
    pub text: String,
    pub time: String,
}

impl Item {
    pub fn empty() -> (item: Item)
        ensures
            item.first == 0 && item.second == 0 && !item.flag,
            item.name@.len() == 0 && item.text@.len() == 0 && item.time@.len() == 0,
    {
        Item { first: 0, second: 0, flag: false, name: String::new(), text: String::new(), time: String::new() }
    }

    /// A row with these numbers and texts, each text cut to its room.
    pub fn filled(first: u16, second: u16, flag: bool, time: &str, name: &str, text: &str) -> (item: Item)
        ensures
            item.first == first && item.second == second && item.flag == flag,
            item.time@ == fit(time@, TIME_CAPACITY as nat),
            item.name@ == fit(name@, NAME_CAPACITY as nat),
            item.text@ == fit(text@, TEXT_CAPACITY as nat),
    {
        Item { first, second, flag, time: store(time, TIME_CAPACITY), name: store(name, NAME_CAPACITY), text: store(text, TEXT_CAPACITY) }
    }

    pub fn name(&self) -> (name: &str)
        ensures
            name@ == self.name@,
    {
        self.name.as_str()
    }

    pub fn text(&self) -> (text: &str)
        ensures
            text@ == self.text@,
    {
        self.text.as_str()
    }

    pub fn time(&self) -> (time: &str)
        ensures
            time@ == self.time@,
    {
        self.time.as_str()
    }
}

/// One entry of the conversation list, as the core described it.
pub struct Conversation {
    pub used: bool,
    /// Where it sits in the list: higher is nearer the top. Conversations that come with the history
    /// keep the order they arrived in; any activity after that puts one on top.
    pub rank: u32,
    pub unread: u8,
    pub name: String,
    pub status: String,
    pub time: String,
    /// What was being typed when the user left this conversation; the open one keeps it in `Chat::draft`.
    pub draft: Vec<char>,
    /// Notifications are off for it.
    pub silenced: bool,
}

/// A conversation slot with nothing in it.
pub open spec fn blank(c: Conversation) -> bool {
    &&& !c.used && c.rank == 0 && c.unread == 0 && !c.silenced
    &&& c.name@.len() == 0 && c.status@.len() == 0 && c.time@.len() == 0 && c.draft@.len() == 0
}

impl Conversation {
    pub fn empty() -> (conversation: Conversation)
        ensures
            blank(conversation),
    {
        Conversation {
            used: false,
            rank: 0,
            unread: 0,
            name: String::new(),
            status: String::new(),
            time: String::new(),
            draft: Vec::new(),
            silenced: false,
        }
    }

    pub fn name(&self) -> (name: &str)
        ensures
            name@ == self.name@,
    {
        self.name.as_str()
    }

    pub fn status(&self) -> (status: &str)
        ensures
            status@ == self.status@,
    {
        self.status.as_str()
    }

    pub fn time(&self) -> (time: &str)
        ensures
            time@ == self.time@,
    {
        self.time.as_str()
    }
}

/// A recent call, or (with `kind` unused) a favourite contact.
pub struct Call {
    pub kind: CallKind,
    pub count: u8,
    pub name: String,
    pub time: String,
}

impl Call {
    /// A call of `kind` (repeated `count` times) with `name` at `time`, the texts cut to their room.
    pub fn filled(kind: CallKind, count: u8, time: &str, name: &str) -> (call: Call)
        ensures
            call.kind == kind && call.count == count,
            call.time@ == fit(time@, TIME_CAPACITY as nat),
            call.name@ == fit(name@, NAME_CAPACITY as nat),
    {
        Call { kind, count, time: store(time, TIME_CAPACITY), name: store(name, NAME_CAPACITY) }
    }

    pub fn name(&self) -> (name: &str)
        ensures
            name@ == self.name@,
    {
        self.name.as_str()
    }

    pub fn time(&self) -> (time: &str)
        ensures
            time@ == self.time@,
    {
        self.time.as_str()
    }
}

// ---- phone numbers

/// Reading `s[..n]` as a phone number: the digits kept so far, and whether it still reads as one.
/// Digits (at most `PHONE_DIGITS`), a plus in front, spaces, dashes and parentheses are allowed.
pub open spec fn phone_scan(s: Seq<char>, n: nat) -> (Seq<u8>, bool)
    decreases n,
{
    if n == 0 {
        (Seq::empty(), true)
    } else {
        let (digits, ok) = phone_scan(s, (n - 1) as nat);
        let c = s[n - 1];
        if !ok {
            (digits, false)
        } else if '0' <= c <= '9' && digits.len() < PHONE_DIGITS {
            (digits.push(c as u8), true)
        } else if (c == '+' && n - 1 == 0) || c == ' ' || c == '-' || c == '(' || c == ')' {
            (digits, true)
        } else {
            (digits, false)
        }
    }
}

proof fn lemma_phone_scan_len(s: Seq<char>, n: nat)
    ensures
        phone_scan(s, n).0.len() <= PHONE_DIGITS,
    decreases n,
{
    if n > 0 {
        lemma_phone_scan_len(s, (n - 1) as nat);
    }
}

/// Once the text stops reading as a phone number, nothing after changes that.
proof fn lemma_phone_stuck(s: Seq<char>, k: nat, n: nat)
    requires
        k <= n,
        !phone_scan(s, k).1,
    ensures
        !phone_scan(s, n).1,
        phone_scan(s, n).0 == phone_scan(s, k).0,
    decreases n - k,
{
    if k < n {
        lemma_phone_stuck(s, k, (n - 1) as nat);
    }
}

/// Whether character `i` of `s` may stand in a phone number: a digit, a plus in front, a space,
/// a dash or a parenthesis.
pub open spec fn phone_char(s: Seq<char>, i: int) -> bool {
    ('0' <= s[i] <= '9') || (s[i] == '+' && i == 0) || s[i] == ' ' || s[i] == '-' || s[i] == '(' || s[i] == ')'
}

/// The digits among the first `n` characters of `s`, in order.
pub open spec fn digits_in(s: Seq<char>, n: int) -> Seq<u8>
    decreases n,
{
    if n <= 0 {
        Seq::empty()
    } else if '0' <= s[n - 1] <= '9' {
        digits_in(s, n - 1).push(s[n - 1] as u8)
    } else {
        digits_in(s, n - 1)
    }
}

proof fn lemma_phone_scan_reads(s: Seq<char>, n: nat)
    requires
        n <= s.len(),
    ensures
        phone_scan(s, n).1 == ((forall|i: int| 0 <= i < n ==> #[trigger] phone_char(s, i)) && digits_in(s, n as int).len() <= PHONE_DIGITS),
        phone_scan(s, n).1 ==> phone_scan(s, n).0 == digits_in(s, n as int),
    decreases n,
{
    if n > 0 {
        let m = (n - 1) as nat;
        lemma_phone_scan_reads(s, m);
        let c = s[m as int];
        if !phone_scan(s, m).1 {
            if !(forall|i: int| 0 <= i < m ==> #[trigger] phone_char(s, i)) {
                let i = choose|i: int| 0 <= i < m && !#[trigger] phone_char(s, i);
                assert(!phone_char(s, i));
            }
        } else if !phone_char(s, m as int) {
            assert(!phone_char(s, m as int));
        } else {
            assert forall|i: int| 0 <= i < n implies #[trigger] phone_char(s, i) by {
                if i < m {
                    assert(phone_char(s, i));
                }
            }
        }
    }
}

/// What `phone_digits` reads, over the characters of the text: a phone number when every
/// character is a digit, a plus in front, a space, a dash or a parenthesis, with eight to fifteen
/// digits; those digits, in order, are what it keeps.
pub proof fn lemma_phone_digits_reads(s: Seq<char>)
    ensures
        ({
            let (kept, ok) = phone_scan(s, s.len());
            &&& (ok && kept.len() >= 8) == ((forall|i: int| 0 <= i < s.len() ==> #[trigger] phone_char(s, i))
                && 8 <= digits_in(s, s.len() as int).len() <= PHONE_DIGITS)
            &&& (ok && kept.len() >= 8) ==> kept == digits_in(s, s.len() as int)
        }),
{
    lemma_phone_scan_reads(s, s.len());
}

/// The digits of `text` when it reads as a phone number (digits, an optional plus, spaces, dashes and
/// parentheses, at least eight digits); how many were written into `digits`.
pub fn phone_digits(text: &str, digits: &mut [u8; PHONE_DIGITS]) -> (count: Option<usize>)
    ensures
        ({
            let (kept, ok) = phone_scan(text@, text@.len());
            &&& final(digits)@ == kept + old(digits)@.skip(kept.len() as int)
            &&& count == (if ok && kept.len() >= 8 { Some(kept.len() as usize) } else { None })
            &&& kept.len() <= PHONE_DIGITS
            &&& final(digits)@.take(kept.len() as int) == kept
        }),
        count is Some == ((forall|i: int| 0 <= i < text@.len() ==> #[trigger] phone_char(text@, i))
            && 8 <= digits_in(text@, text@.len() as int).len() <= PHONE_DIGITS),
        count matches Some(n) ==> n == digits_in(text@, text@.len() as int).len()
            && final(digits)@.take(n as int) == digits_in(text@, text@.len() as int),
{
    let chars = chars_of(text);
    let mut count: usize = 0;
    let mut index: usize = 0;
    while index < chars.len()
        invariant
            0 <= index <= chars@.len(),
            chars@ == text@,
            phone_scan(text@, index as nat).1,
            count == phone_scan(text@, index as nat).0.len(),
            digits@ == phone_scan(text@, index as nat).0 + old(digits)@.skip(count as int),
            old(digits)@.len() == PHONE_DIGITS,
        decreases chars@.len() - index,
    {
        proof {
            lemma_phone_scan_len(text@, index as nat);
        }
        let c = chars[index];
        if '0' <= c && c <= '9' && count < PHONE_DIGITS {
            let ghost before = digits@;
            digits[count] = c as u8;
            count = count + 1;
            assert(digits@ =~= phone_scan(text@, (index + 1) as nat).0 + old(digits)@.skip(count as int));
        } else if (c == '+' && index == 0) || c == ' ' || c == '-' || c == '(' || c == ')' {
        } else {
            proof {
                lemma_phone_stuck(text@, (index + 1) as nat, text@.len());
                lemma_phone_scan_len(text@, index as nat);
                assert(digits@.take(count as int) =~= phone_scan(text@, index as nat).0);
                lemma_phone_digits_reads(text@);
            }
            return None;
        }
        index = index + 1;
    }
    proof {
        lemma_phone_scan_len(text@, chars@.len() as nat);
        assert(digits@.take(count as int) =~= phone_scan(text@, text@.len()).0);
        lemma_phone_digits_reads(text@);
    }
    if count >= 8 { Some(count) } else { None }
}

// ---- initials and matching

/// The letter a contact is filed under: its initial without accent, upper case, or `#`.
pub open spec fn initial(name: Seq<char>) -> char {
    if name.len() > 0 && is_ascii_lowercase(fold(name[0])) {
        ((fold(name[0]) as u32) - 32) as char
    } else {
        '#'
    }
}

/// The letter a contact is filed under: its initial without accent, or `#`.
pub fn initial_of(name: &str) -> (letter: char)
    ensures
        letter == initial(name@),
{
    if name.unicode_len() == 0 {
        return '#';
    }
    let first = fold_char(name.get_char(0));
    if 'a' <= first && first <= 'z' {
        let byte: u8 = first as u8 - 32;
        byte as char
    } else {
        '#'
    }
}

/// Whether `query` appears in `name`, ignoring case and accents (an empty name matches nothing).
pub open spec fn matches_name(name: Seq<char>, query: Seq<char>) -> bool {
    exists|at: int| 0 <= at < name.len() && #[trigger] occurs_at(folded(name), folded(query), at)
}

/// Whether `query` appears in `name`, ignoring case and accents.
pub fn name_matches(name: &str, query: &str) -> (found: bool)
    ensures
        found == matches_name(name@, query@),
{
    let folded_name = fold_all(chars_of(name).as_slice());
    let folded_query = fold_all(chars_of(query).as_slice());
    let mut at: usize = 0;
    while at < folded_name.len()
        invariant
            0 <= at <= folded_name@.len(),
            folded_name@ == folded(name@),
            folded_query@ == folded(query@),
            forall|j: int| 0 <= j < at ==> !#[trigger] occurs_at(folded_name@, folded_query@, j),
        decreases folded_name@.len() - at,
    {
        if occurs_at_exec(folded_name.as_slice(), folded_query.as_slice(), at) {
            return true;
        }
        at = at + 1;
    }
    false
}

/// Where `query` first appears in `text` at or after `from`, ignoring case and accents: the range
/// of the match, in characters. Folding maps one character to one character, so the ranges line up.
pub open spec fn first_match(text: Seq<char>, query: Seq<char>, from: int) -> Option<(int, int)>
    decreases text.len() - from,
{
    if query.len() == 0 || from >= text.len() || from < 0 {
        None
    } else if occurs_at(folded(text), folded(query), from) {
        Some((from, from + query.len()))
    } else {
        first_match(text, query, from + 1)
    }
}

/// Where `query` first appears in `text` at or after character position `from`, ignoring case
/// and accents: the range of the match, as character positions.
pub fn match_from(text: &[char], query: &str, from: usize) -> (found: Option<(usize, usize)>)
    ensures
        match first_match(text@, query@, from as int) {
            Some((start, end)) => found == Some((start as usize, end as usize)) && 0 <= start <= end <= text@.len(),
            None => found is None,
        },
{
    let folded_text = fold_all(text);
    let folded_query = fold_all(chars_of(query).as_slice());
    if folded_query.len() == 0 {
        return None;
    }
    assert(folded_query@.len() == query@.len());
    let mut start: usize = from;
    while start < folded_text.len()
        invariant
            from <= start,
            folded_text@ == folded(text@),
            folded_text@.len() == text@.len(),
            folded_query@ == folded(query@),
            folded_query@.len() == query@.len(),
            query@.len() > 0,
            first_match(text@, query@, from as int) == first_match(text@, query@, start as int),
        decreases folded_text@.len() - start,
    {
        if occurs_at_exec(folded_text.as_slice(), folded_query.as_slice(), start) {
            proof {
                lemma_match_in_text(text@, query@, start as int);
            }
            return Some((start, start + folded_query.len()));
        }
        start = start + 1;
    }
    None
}

/// Where `query` first appears in `text` at or after byte offset `from` (where a character starts),
/// ignoring case and accents: the range of the match, as byte offsets.
pub fn find_from(text: &str, query: &str, from: usize) -> (found: Option<(usize, usize)>)
    requires
        crate::text::byte_len(text@) <= usize::MAX,
        crate::text::on_boundary(text@, from as int),
    ensures
        match first_match(text@, query@, crate::text::char_at_byte(text@, from as int)) {
            Some((start, end)) => found == Some((crate::text::byte_at_char(text@, start) as usize,
                crate::text::byte_at_char(text@, end) as usize)),
            None => found is None,
        },
{
    let chars = chars_of(text);
    let first = crate::text::char_offset(chars.as_slice(), from);
    match match_from(chars.as_slice(), query, first) {
        Some((start, end)) => {
            Some((crate::text::byte_offset(chars.as_slice(), start), crate::text::byte_offset(chars.as_slice(), end)))
        },
        None => None,
    }
}

/// The match `first_match` finds is the first one from `from` on; with none, nothing from `from`
/// on matches.
proof fn lemma_first_match_least(text: Seq<char>, query: Seq<char>, from: int)
    requires
        0 <= from,
    ensures
        match first_match(text, query, from) {
            Some((start, end)) => {
                &&& query.len() > 0 && from <= start < text.len() && end == start + query.len()
                &&& occurs_at(folded(text), folded(query), start)
                &&& forall|k: int| from <= k < start ==> !#[trigger] occurs_at(folded(text), folded(query), k)
            },
            None => query.len() == 0 || forall|k: int| from <= k < text.len() ==> !#[trigger] occurs_at(folded(text), folded(query), k),
        },
    decreases text.len() - from,
{
    if !(query.len() == 0 || from >= text.len()) && !occurs_at(folded(text), folded(query), from) {
        lemma_first_match_least(text, query, from + 1);
    }
}

/// Whether the folded characters of `text` from byte offset `b` on, where a character starts,
/// begin with the folded `query`.
pub open spec fn matches_at_byte(text: Seq<char>, query: Seq<char>, b: int) -> bool {
    on_boundary(text, b) && char_at_byte(text, b) < text.len() && occurs_at(folded(text), folded(query), char_at_byte(text, b))
}

/// What `find_from` finds, in byte offsets: with a `query` that is not empty, the first offset
/// from `from` on where a character starts and the folded text begins with the folded query, up to
/// the end of as many characters as the query has; with none such (or an empty query), nothing.
pub proof fn lemma_find_from_in_bytes(text: Seq<char>, query: Seq<char>, from: int)
    requires
        0 <= from,
        on_boundary(text, from),
    ensures
        match first_match(text, query, char_at_byte(text, from)) {
            Some((start, end)) => {
                let s = byte_at_char(text, start);
                &&& query.len() > 0 && from <= s && matches_at_byte(text, query, s)
                &&& byte_at_char(text, end) == byte_at_char(text, char_at_byte(text, s) + query.len())
                &&& forall|b: int| from <= b < s ==> !#[trigger] matches_at_byte(text, query, b)
            },
            None => query.len() == 0 || forall|b: int| from <= b ==> !#[trigger] matches_at_byte(text, query, b),
        },
{
    let c0 = char_at_byte(text, from);
    lemma_char_at_byte_range(text, from);
    lemma_first_match_least(text, query, c0);
    match first_match(text, query, c0) {
        Some((start, end)) => {
            let s = byte_at_char(text, start);
            lemma_char_at_byte_of(text, start);
            lemma_byte_at_char_order(text, c0, start);
            assert forall|b: int| from <= b < s implies !#[trigger] matches_at_byte(text, query, b) by {
                if matches_at_byte(text, query, b) {
                    let k = char_at_byte(text, b);
                    lemma_char_at_byte_range(text, b);
                    lemma_byte_at_char_order(text, k, start);
                    lemma_byte_at_char_order(text, c0, k);
                    assert(!occurs_at(folded(text), folded(query), k));
                }
            }
        },
        None => {
            if query.len() > 0 {
                assert forall|b: int| from <= b implies !#[trigger] matches_at_byte(text, query, b) by {
                    if matches_at_byte(text, query, b) {
                        let k = char_at_byte(text, b);
                        lemma_char_at_byte_range(text, b);
                        lemma_byte_at_char_order(text, c0, k);
                        assert(!occurs_at(folded(text), folded(query), k));
                    }
                }
            }
        },
    }
}

/// A match lies within the text.
proof fn lemma_match_in_text(text: Seq<char>, query: Seq<char>, at: int)
    requires
        0 <= at,
        query.len() > 0,
        occurs_at(folded(text), folded(query), at),
    ensures
        at + query.len() <= text.len(),
{
    assert(folded(text).len() == text.len());
    assert(folded(query).len() == query.len());
}

// ---- dead keys

pub const ACUTE: [char; 24] = ['a', 'á', 'e', 'é', 'i', 'í', 'o', 'ó', 'u', 'ú', 'A', 'Á', 'E', 'É', 'I', 'Í', 'O', 'Ó', 'U', 'Ú', 'c', 'ç', 'C', 'Ç'];
pub const GRAVE: [char; 20] = ['a', 'à', 'e', 'è', 'i', 'ì', 'o', 'ò', 'u', 'ù', 'A', 'À', 'E', 'È', 'I', 'Ì', 'O', 'Ò', 'U', 'Ù'];
pub const CIRCUMFLEX: [char; 20] = ['a', 'â', 'e', 'ê', 'i', 'î', 'o', 'ô', 'u', 'û', 'A', 'Â', 'E', 'Ê', 'I', 'Î', 'O', 'Ô', 'U', 'Û'];
pub const TILDE: [char; 12] = ['a', 'ã', 'o', 'õ', 'n', 'ñ', 'A', 'Ã', 'O', 'Õ', 'N', 'Ñ'];
pub const DIAERESIS: [char; 20] = ['a', 'ä', 'e', 'ë', 'i', 'ï', 'o', 'ö', 'u', 'ü', 'A', 'Ä', 'E', 'Ë', 'I', 'Ï', 'O', 'Ö', 'U', 'Ü'];

pub const NO_PAIRS: [char; 0] = [];

/// The (base, accented) pairs a dead key makes, one after the other; empty for a key that is no accent.
pub open spec fn accent_pairs(accent: char) -> Seq<char> {
    if accent == '´' {
        ACUTE@
    } else if accent == '`' {
        GRAVE@
    } else if accent == '^' {
        CIRCUMFLEX@
    } else if accent == '~' {
        TILDE@
    } else if accent == '¨' {
        DIAERESIS@
    } else {
        NO_PAIRS@
    }
}

/// The accented letter of the first pair, from `at` on, whose base is `base`.
pub open spec fn pair_lookup(pairs: Seq<char>, base: char, at: int) -> Option<char>
    decreases pairs.len() - at,
{
    if at < 0 || at + 1 >= pairs.len() {
        None
    } else if pairs[at] == base {
        Some(pairs[at + 1])
    } else {
        pair_lookup(pairs, base, at + 2)
    }
}

/// The accented letter a dead key and a base letter make together.
pub open spec fn composed(accent: char, base: char) -> Option<char> {
    pair_lookup(accent_pairs(accent), base, 0)
}

fn pairs_of(accent: char) -> (pairs: &'static [char])
    ensures
        pairs@ == accent_pairs(accent),
{
    if accent == '´' {
        ACUTE.as_slice()
    } else if accent == '`' {
        GRAVE.as_slice()
    } else if accent == '^' {
        CIRCUMFLEX.as_slice()
    } else if accent == '~' {
        TILDE.as_slice()
    } else if accent == '¨' {
        DIAERESIS.as_slice()
    } else {
        NO_PAIRS.as_slice()
    }
}

/// The accented letter a dead key and a base letter make together.
pub fn compose(accent: char, base: char) -> (letter: Option<char>)
    ensures
        letter == composed(accent, base),
{
    let pairs = pairs_of(accent);
    let mut at: usize = 0;
    while at + 1 < pairs.len()
        invariant
            at % 2 == 0,
            at <= pairs@.len() + 1,
            pairs@ == accent_pairs(accent),
            pair_lookup(pairs@, base, 0) == pair_lookup(pairs@, base, at as int),
        decreases pairs@.len() - at,
    {
        if pairs[at] == base {
            return Some(pairs[at + 1]);
        }
        at = at + 2;
    }
    None
}

// ---- the time field of a message

/// The part of `s` before its first space, and what follows that space (empty without one).
pub open spec fn split_space(s: Seq<char>) -> (Seq<char>, Seq<char>) {
    if exists|i: int| 0 <= i < s.len() && s[i] == ' ' {
        let i = choose|i: int| 0 <= i < s.len() && s[i] == ' ' && forall|j: int| 0 <= j < i ==> s[j] != ' ';
        (s.take(i), s.skip(i + 1))
    } else {
        (s, Seq::empty())
    }
}

/// The time of a `MSG` time field: its first five characters before any space, padded with spaces.
pub open spec fn stamp_of(time: Seq<char>) -> Seq<char> {
    let clock = split_space(time).0;
    if clock.len() >= 5 { clock.take(5) } else { clock + Seq::new((5 - clock.len()) as nat, |i: int| ' ') }
}

/// The day of a `MSG` time field: the number after the space, 0 (today) when there is none.
pub open spec fn stamp_day(time: Seq<char>) -> u16 {
    match number(trim(split_space(time).1)) {
        Some(n) => if n <= u16::MAX { n as u16 } else { 0 },
        None => 0,
    }
}

/// The time and the day of a `MSG` time field: "HH:MM", optionally followed by a space and the day
/// number; without one the message is from today (0).
pub fn split_stamp(time: &str) -> (parts: (String, u16))
    ensures
        parts.0@ == stamp_of(time@),
        parts.1 == stamp_day(time@),
{
    let chars = chars_of(time);
    let mut space: usize = 0;
    while space < chars.len() && chars[space] != ' '
        invariant
            0 <= space <= chars@.len(),
            chars@ == time@,
            forall|j: int| 0 <= j < space ==> chars@[j] != ' ',
        decreases chars@.len() - space,
    {
        space = space + 1;
    }
    let ghost parts = split_space(time@);
    let mut clock: Vec<char> = Vec::new();
    let mut day: Vec<char> = Vec::new();
    let mut i: usize = 0;
    while i < space
        invariant
            0 <= i <= space <= chars@.len(),
            clock@ == chars@.take(i as int),
        decreases space - i,
    {
        clock.push(chars[i]);
        assert(clock@ =~= chars@.take(i + 1));
        i = i + 1;
    }
    if space < chars.len() {
        let mut j: usize = space + 1;
        while j < chars.len()
            invariant
                space + 1 <= j <= chars@.len(),
                day@ == chars@.subrange(space + 1, j as int),
            decreases chars@.len() - j,
        {
            day.push(chars[j]);
            assert(day@ =~= chars@.subrange(space + 1, j + 1));
            j = j + 1;
        }
        proof {
            assert(chars@[space as int] == ' ');
            let k = choose|k: int| 0 <= k < time@.len() && time@[k] == ' ' && forall|j: int| 0 <= j < k ==> time@[j] != ' ';
            assert(k == space as int) by {
                if k < space { assert(chars@[k] != ' '); }
                if k > space { assert(time@[space as int] == ' '); }
            }
            assert(day@ =~= time@.skip(space + 1));
        }
    } else {
        assert(clock@ =~= time@);
        assert(day@ =~= Seq::<char>::empty());
    }
    assert(clock@ == parts.0);
    assert(day@ == parts.1);
    let mut stamp: Vec<char> = Vec::new();
    let mut k: usize = 0;
    while k < 5
        invariant
            0 <= k <= 5,
            stamp@ == stamp_of(time@).take(k as int),
            clock@ == parts.0,
            parts == split_space(time@),
        decreases 5 - k,
    {
        if k < clock.len() {
            stamp.push(clock[k]);
        } else {
            stamp.push(' ');
        }
        assert(stamp@ =~= stamp_of(time@).take(k + 1));
        k = k + 1;
    }
    assert(stamp@ =~= stamp_of(time@));
    let value = parse_number(trim_chars(day.as_slice()).as_slice());
    let day_number: u16 = match value {
        Some(n) => if n <= 65535 { n as u16 } else { 0 },
        None => 0,
    };
    (string_of(stamp.as_slice()), day_number)
}

// ---- messages

pub struct Message {
    pub chat: u8,
    pub outgoing: bool,
    pub delivery: Delivery,
    /// "HH:MM", always five characters.
    pub time: String,
    /// Height of the bubble at the current window width; see `Chat::resize`.
    pub height: u16,
    pub text: String,
    /// The connection's id for the message (empty until it is known), and the id of the message it answers.
    pub id: String,
    pub reply: String,
    /// The emoji put on it, most used first, with how many people used each (0: no emoji), shown as a small pill
    /// under the bubble; `mine` is the one we put.
    pub tally: [u32; TALLY],
    pub counts: [u8; TALLY],
    pub mine: u32,
    /// Taken back by its sender: the text says so and nothing can be done with it.
    pub deleted: bool,
    /// Marked as a favourite: a small star before the time.
    pub starred: bool,
    /// The calendar day it was sent, in days since 1970-01-01 (Brasilia time).
    pub day: u16,
    /// What it carries besides text (`MEDIA_*`), the picture's size, and a short label (a file name or a duration).
    pub kind: u8,
    pub media_w: u16,
    pub media_h: u16,
    pub label: String,
    /// The preview picture: 0 not asked for, 1 asked, 2 in `slot` of the pool, 3 there is none.
    pub thumb: u8,
    pub slot: u8,
}

/// The size of the box that shows what a message of `kind` carries, for a picture of `w` by `h`:
/// (width, height), (0, 0) for none. A picture keeps its proportions within bounds.
pub open spec fn block_of(kind: u8, w: int, h: int) -> (int, int) {
    if kind == MEDIA_IMAGE || kind == MEDIA_VIDEO || kind == MEDIA_STICKER {
        let height = if w > 0 && h > 0 { (MEDIA_W * h) / w } else { MEDIA_W * 3 / 4 };
        (MEDIA_W as int, if height < MEDIA_MIN_H { MEDIA_MIN_H as int } else if height > MEDIA_MAX_H { MEDIA_MAX_H as int } else { height })
    } else if kind == MEDIA_AUDIO {
        (MEDIA_W - 10, AUDIO_H as int)
    } else if kind == MEDIA_DOCUMENT {
        (MEDIA_W - 10, DOCUMENT_H as int)
    } else {
        (0, 0)
    }
}

/// What the conversation list shows for a message without text, by what it carries.
pub open spec fn kind_text(kind: u8) -> Seq<char> {
    if kind == MEDIA_IMAGE {
        "Foto"@
    } else if kind == MEDIA_VIDEO {
        "Vídeo"@
    } else if kind == MEDIA_AUDIO {
        "Mensagem de voz"@
    } else if kind == MEDIA_DOCUMENT {
        "Documento"@
    } else if kind == MEDIA_STICKER {
        "Figurinha"@
    } else {
        ""@
    }
}

/// The first slot of the tally holding `code` (`code` is not 0), if any.
pub open spec fn tally_slot(tally: Seq<u32>, code: u32) -> Option<int> {
    if exists|i: int| 0 <= i < tally.len() && tally[i] == code {
        Some(choose|i: int| 0 <= i < tally.len() && tally[i] == code && forall|j: int| 0 <= j < i ==> tally[j] != code)
    } else {
        None
    }
}

/// The tally with our emoji taken out: its count goes down by one, and at zero it leaves the pill
/// and the others move up.
pub open spec fn without_mine(tally: Seq<u32>, counts: Seq<u8>, mine: u32) -> (Seq<u32>, Seq<u8>) {
    if mine == 0 {
        (tally, counts)
    } else {
        match tally_slot(tally, mine) {
            None => (tally, counts),
            Some(slot) => {
                let left = if counts[slot] > 0 { (counts[slot] - 1) as u8 } else { 0u8 };
                if left > 0 {
                    (tally, counts.update(slot, left))
                } else {
                    (tally.remove(slot).push(0u32), counts.remove(slot).push(0u8))
                }
            },
        }
    }
}

/// The first slot that holds `code` or is free, else the last one.
pub open spec fn place_for(tally: Seq<u32>, code: u32) -> int {
    if exists|i: int| 0 <= i < tally.len() && (tally[i] == code || tally[i] == 0) {
        choose|i: int| 0 <= i < tally.len() && (tally[i] == code || tally[i] == 0)
            && forall|j: int| 0 <= j < i ==> tally[j] != code && tally[j] != 0
    } else {
        TALLY - 1
    }
}

/// The tally with our emoji `code` put in: a new one takes the last place when the pill is full.
pub open spec fn with_mine(tally: Seq<u32>, counts: Seq<u8>, code: u32) -> (Seq<u32>, Seq<u8>) {
    let slot = place_for(tally, code);
    let start = if tally[slot] != code { 0u8 } else { counts[slot] };
    let bumped = if start == 255 { 255u8 } else { (start + 1) as u8 };
    (tally.update(slot, code), counts.update(slot, bumped))
}

impl Message {
    pub fn text(&self) -> (text: &str)
        ensures
            text@ == self.text@,
    {
        self.text.as_str()
    }

    pub fn label(&self) -> (label: &str)
        ensures
            label@ == self.label@,
    {
        self.label.as_str()
    }

    pub fn time(&self) -> (time: &str)
        ensures
            time@ == self.time@,
    {
        self.time.as_str()
    }

    pub fn id(&self) -> (id: &str)
        ensures
            id@ == self.id@,
    {
        self.id.as_str()
    }

    pub fn reply_id(&self) -> (id: &str)
        ensures
            id@ == self.reply@,
    {
        self.reply.as_str()
    }

    /// The size of the box that shows what the message carries: (width, height), (0, 0) for none.
    pub fn block(&self) -> (size: (i32, i32))
        ensures
            (size.0 as int, size.1 as int) == block_of(self.kind, self.media_w as int, self.media_h as int),
            0 <= size.1 <= MEDIA_MAX_H,
    {
        let kind = self.kind;
        if kind == MEDIA_IMAGE || kind == MEDIA_VIDEO || kind == MEDIA_STICKER {
            let w = self.media_w as i32;
            let h = self.media_h as i32;
            let height: i32 = if w > 0 && h > 0 { MEDIA_W * h / w } else { MEDIA_W * 3 / 4 };
            (MEDIA_W, if height < MEDIA_MIN_H { MEDIA_MIN_H } else if height > MEDIA_MAX_H { MEDIA_MAX_H } else { height })
        } else if kind == MEDIA_AUDIO {
            (MEDIA_W - 10, AUDIO_H)
        } else if kind == MEDIA_DOCUMENT {
            (MEDIA_W - 10, DOCUMENT_H)
        } else {
            (0, 0)
        }
    }

    /// What the conversation list shows for a message without text.
    pub fn kind_word(&self) -> (word: &'static str)
        ensures
            word@ == kind_text(self.kind),
    {
        match self.kind {
            MEDIA_IMAGE => "Foto",
            MEDIA_VIDEO => "Vídeo",
            MEDIA_AUDIO => "Mensagem de voz",
            MEDIA_DOCUMENT => "Documento",
            MEDIA_STICKER => "Figurinha",
            _ => "",
        }
    }

    /// Takes our emoji out of the tally.
    pub fn take_back_mine(&mut self)
        ensures
            (final(self).tally@, final(self).counts@) == without_mine(old(self).tally@, old(self).counts@, old(self).mine),
            final(self).mine == 0,
            final(self).chat == old(self).chat && final(self).text == old(self).text && final(self).id == old(self).id,
            final(self).outgoing == old(self).outgoing && final(self).deleted == old(self).deleted,
            final(self).starred == old(self).starred && final(self).reply == old(self).reply,
            final(self).time == old(self).time && final(self).kind == old(self).kind && final(self).day == old(self).day,
            final(self).media_w == old(self).media_w && final(self).media_h == old(self).media_h,
            final(self).label == old(self).label && final(self).thumb == old(self).thumb && final(self).slot == old(self).slot,
            final(self).delivery == old(self).delivery && final(self).height == old(self).height,
    {
        let mine = self.mine;
        let mut tally = self.tally;
        let mut counts = self.counts;
        if mine != 0 {
            let mut slot: usize = 0;
            while slot < TALLY && tally[slot] != mine
                invariant
                    0 <= slot <= TALLY,
                    tally@ == old(self).tally@,
                    forall|j: int| 0 <= j < slot ==> tally@[j] != mine,
                decreases TALLY - slot,
            {
                slot = slot + 1;
            }
            if slot < TALLY {
                let ghost chosen = choose|i: int| 0 <= i < tally@.len() && tally@[i] == mine
                    && forall|j: int| 0 <= j < i ==> tally@[j] != mine;
                assert(chosen == slot) by {
                    if chosen < slot { assert(tally@[chosen] != mine); }
                    if chosen > slot { assert(tally@[slot as int] == mine); }
                }
                let count = counts[slot];
                let left: u8 = if count > 0 { count - 1 } else { 0 };
                counts[slot] = left;
                if left == 0 {
                    let ghost first = tally@;
                    let ghost second = counts@;
                    let mut k: usize = slot;
                    while k + 1 < TALLY
                        invariant
                            slot <= k < TALLY,
                            forall|j: int| 0 <= j < slot ==> tally@[j] == first[j] && counts@[j] == second[j],
                            forall|j: int| slot <= j < k ==> tally@[j] == first[j + 1] && counts@[j] == second[j + 1],
                            forall|j: int| k <= j < TALLY ==> tally@[j] == first[j] && counts@[j] == second[j],
                            first.len() == TALLY && second.len() == TALLY,
                        decreases TALLY - k,
                    {
                        tally[k] = tally[k + 1];
                        counts[k] = counts[k + 1];
                        k = k + 1;
                    }
                    tally[TALLY - 1] = 0;
                    counts[TALLY - 1] = 0;
                    assert(tally@ =~= first.remove(slot as int).push(0u32));
                    assert(counts@ =~= second.remove(slot as int).push(0u8));
                    assert(second.remove(slot as int) =~= old(self).counts@.remove(slot as int));
                }
            }
        }
        self.tally = tally;
        self.counts = counts;
        self.mine = 0;
    }

    /// Puts our emoji in the tally (a new one takes the last place when the pill is full).
    pub fn add_mine(&mut self, code: u32)
        ensures
            (final(self).tally@, final(self).counts@) == with_mine(old(self).tally@, old(self).counts@, code),
            final(self).mine == code,
            final(self).chat == old(self).chat && final(self).text == old(self).text && final(self).id == old(self).id,
            final(self).outgoing == old(self).outgoing && final(self).deleted == old(self).deleted,
            final(self).starred == old(self).starred && final(self).reply == old(self).reply,
            final(self).time == old(self).time && final(self).kind == old(self).kind && final(self).day == old(self).day,
            final(self).media_w == old(self).media_w && final(self).media_h == old(self).media_h,
            final(self).label == old(self).label && final(self).thumb == old(self).thumb && final(self).slot == old(self).slot,
            final(self).delivery == old(self).delivery && final(self).height == old(self).height,
    {
        self.mine = code;
        let mut slot: usize = 0;
        while slot < TALLY && self.tally[slot] != code && self.tally[slot] != 0
            invariant
                0 <= slot <= TALLY,
                self.tally@ == old(self).tally@,
                forall|j: int| 0 <= j < slot ==> self.tally@[j] != code && self.tally@[j] != 0,
            decreases TALLY - slot,
        {
            slot = slot + 1;
        }
        if slot == TALLY {
            slot = TALLY - 1;
        } else {
            let ghost chosen = choose|i: int| 0 <= i < self.tally@.len() && (self.tally@[i] == code || self.tally@[i] == 0)
                && forall|j: int| 0 <= j < i ==> self.tally@[j] != code && self.tally@[j] != 0;
            assert(chosen == slot) by {
                if chosen < slot { assert(self.tally@[chosen] != code && self.tally@[chosen] != 0); }
                if chosen > slot { assert(self.tally@[slot as int] == code || self.tally@[slot as int] == 0); }
            }
        }
        assert(slot == place_for(old(self).tally@, code));
        if self.tally[slot] != code {
            self.tally[slot] = code;
            self.counts[slot] = 0;
        }
        let count = self.counts[slot];
        self.counts[slot] = if count == 255 { 255 } else { count + 1 };
        assert(self.tally@ =~= with_mine(old(self).tally@, old(self).counts@, code).0);
        assert(self.counts@ =~= with_mine(old(self).tally@, old(self).counts@, code).1);
    }
}

} // verus!
