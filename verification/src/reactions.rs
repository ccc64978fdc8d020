//! Who reacted with what to which message, so the ui gets one count per emoji (a group message can
//! carry many reactions). Bounded: the oldest message is forgotten first.

use vstd::prelude::*;
use crate::text::{chars_of, string_of, same_chars, decimal, push_decimal};

verus! {

/// Messages whose reactions are kept.
pub const MESSAGES: usize = 64;

/// Kinds of emoji the ui shows for a message.
pub const SHOWN: usize = 3;

/// The person a reaction of ours is filed under.
pub const ME: &'static str = "me";

struct Entry {
    chat: usize,
    id: String,
    /// One emoji per person: (person, emoji).
    by: Vec<(String, String)>,
}

/// The reactions to one message, as plain values: its chat, its id, and (person, emoji) pairs.
pub type EntryView = (usize, Seq<char>, Seq<(Seq<char>, Seq<char>)>);

pub struct Reactions {
    entries: Vec<Entry>,
}

spec fn pair_view(pair: (String, String)) -> (Seq<char>, Seq<char>) {
    (pair.0@, pair.1@)
}

spec fn entry_view(entry: Entry) -> EntryView {
    (entry.chat, entry.id@, entry.by@.map_values(|pair: (String, String)| pair_view(pair)))
}

impl View for Reactions {
    type V = Seq<EntryView>;

    closed spec fn view(&self) -> Seq<EntryView> {
        self.entries@.map_values(|entry: Entry| entry_view(entry))
    }
}

/// Where the reactions to message `id` of `chat` are kept, if they are.
pub open spec fn entry_at(entries: Seq<EntryView>, chat: usize, id: Seq<char>) -> Option<int>
    decreases entries.len(),
{
    if entries.len() == 0 {
        None
    } else if entries[0].0 == chat && entries[0].1 == id {
        Some(0)
    } else {
        match entry_at(entries.drop_first(), chat, id) {
            Some(i) => Some(i + 1),
            None => None,
        }
    }
}

/// `by` without the reaction of `who`.
pub open spec fn without(by: Seq<(Seq<char>, Seq<char>)>, who: Seq<char>) -> Seq<(Seq<char>, Seq<char>)>
    decreases by.len(),
{
    if by.len() == 0 {
        seq![]
    } else {
        let rest = without(by.drop_last(), who);
        if by.last().0 == who { rest } else { rest.push(by.last()) }
    }
}

/// The reactions after `who` reacted with `emoji` to message `id` of `chat` (an empty emoji takes
/// their reaction back). A message not there yet comes last; when the book is full the oldest goes.
pub open spec fn after_set(entries: Seq<EntryView>, chat: usize, id: Seq<char>, who: Seq<char>, emoji: Seq<char>) -> Seq<EntryView> {
    let (base, at) = match entry_at(entries, chat, id) {
        Some(i) => (entries, i),
        None => {
            let kept = if entries.len() == MESSAGES { entries.drop_first() } else { entries };
            (kept.push((chat, id, seq![])), kept.len() as int)
        },
    };
    let others = without(base[at].2, who);
    let by = if emoji.len() > 0 { others.push((who, emoji)) } else { others };
    base.update(at, (chat, id, by))
}

/// How many people used each emoji, in the order the emoji first appear.
pub open spec fn tally(by: Seq<(Seq<char>, Seq<char>)>) -> Seq<(Seq<char>, nat)>
    decreases by.len(),
{
    if by.len() == 0 {
        seq![]
    } else {
        add_one(tally(by.drop_last()), by.last().1)
    }
}

/// `counts` with one more use of `emoji`.
pub open spec fn add_one(counts: Seq<(Seq<char>, nat)>, emoji: Seq<char>) -> Seq<(Seq<char>, nat)>
    decreases counts.len(),
{
    if counts.len() == 0 {
        seq![(emoji, 1nat)]
    } else if counts[0].0 == emoji {
        counts.update(0, (emoji, counts[0].1 + 1))
    } else {
        seq![counts[0]] + add_one(counts.drop_first(), emoji)
    }
}

/// `counts` put in order of use, most used first; emoji used as often keep their order (a stable sort).
pub open spec fn most_used_first(counts: Seq<(Seq<char>, nat)>) -> Seq<(Seq<char>, nat)>
    decreases counts.len(),
{
    if counts.len() == 0 {
        seq![]
    } else {
        place(most_used_first(counts.drop_last()), counts.last())
    }
}

/// `item` put into `sorted` after everything used at least as often.
pub open spec fn place(sorted: Seq<(Seq<char>, nat)>, item: (Seq<char>, nat)) -> Seq<(Seq<char>, nat)>
    decreases sorted.len(),
{
    if sorted.len() == 0 {
        seq![item]
    } else if sorted.last().1 >= item.1 {
        sorted.push(item)
    } else {
        place(sorted.drop_last(), item).push(sorted.last())
    }
}

/// `emoji:count`, the count at most 99.
pub open spec fn pair_text(pair: (Seq<char>, nat)) -> Seq<char> {
    pair.0 + seq![':'] + decimal(if pair.1 < 99 { pair.1 } else { 99 })
}

/// The texts of `pairs` separated by spaces.
pub open spec fn joined(pairs: Seq<(Seq<char>, nat)>) -> Seq<char>
    decreases pairs.len(),
{
    if pairs.len() == 0 {
        seq![]
    } else if pairs.len() == 1 {
        pair_text(pairs[0])
    } else {
        joined(pairs.drop_last()) + seq![' '] + pair_text(pairs.last())
    }
}

/// Our emoji among `by`: that of the first reaction filed under `me`, or none.
pub open spec fn mine(by: Seq<(Seq<char>, Seq<char>)>) -> Seq<char>
    decreases by.len(),
{
    if by.len() == 0 {
        seq![]
    } else if by[0].0 == ME@ {
        by[0].1
    } else {
        mine(by.drop_first())
    }
}

/// The `REACTIONS` line of a message: our emoji and `emoji:count` pairs, most used first.
pub open spec fn reactions_line(entries: Seq<EntryView>, chat: usize, id: Seq<char>) -> Seq<Seq<char>> {
    let by = match entry_at(entries, chat, id) {
        Some(i) => entries[i].2,
        None => seq![],
    };
    let shown = most_used_first(tally(by));
    let shown = if shown.len() > SHOWN { shown.take(SHOWN as int) } else { shown };
    seq!["REACTIONS"@, decimal(chat as nat), id, mine(by), joined(shown)]
}

fn find_entry(entries: &Vec<Entry>, chat: usize, id: &[char]) -> (at: Option<usize>)
    ensures
        match at {
            Some(i) => entry_at(entries@.map_values(|entry: Entry| entry_view(entry)), chat, id@) == Some(i as int),
            None => entry_at(entries@.map_values(|entry: Entry| entry_view(entry)), chat, id@) is None,
        },
{
    let ghost all = entries@.map_values(|entry: Entry| entry_view(entry));
    let mut i: usize = 0;
    assert(all.skip(0) =~= all);
    while i < entries.len()
        invariant
            0 <= i <= entries@.len(),
            all == entries@.map_values(|entry: Entry| entry_view(entry)),
            entry_at(all, chat, id@) == match entry_at(all.skip(i as int), chat, id@) {
                Some(k) => Some(k + i),
                None => None,
            },
        decreases entries@.len() - i,
    {
        let known = chars_of(entries[i].id.as_str());
        assert(all.skip(i as int)[0] == all[i as int]);
        if entries[i].chat == chat && same_chars(known.as_slice(), id) {
            return Some(i);
        }
        assert(all.skip(i as int).drop_first() =~= all.skip(i + 1));
        i = i + 1;
    }
    None
}

impl Reactions {
    pub fn new() -> (reactions: Self)
        ensures
            reactions@ == Seq::<EntryView>::empty(),
            reactions.wf(),
    {
        let reactions = Reactions { entries: Vec::new() };
        assert(reactions@ =~= Seq::<EntryView>::empty());
        reactions
    }

    /// How many messages have their reactions kept.
    pub closed spec fn wf(&self) -> bool {
        self.entries@.len() <= MESSAGES
    }

    /// `who` reacted with `emoji` to message `id` of `chat`; an empty emoji takes their reaction back.
    pub fn set(&mut self, chat: usize, id: &str, who: &str, emoji: &str)
        requires
            old(self).wf(),
        ensures
            final(self).wf(),
            final(self)@ == after_set(old(self)@, chat, id@, who@, emoji@),
    {
        let ghost entries = self@;
        let id_chars = chars_of(id);
        let who_chars = chars_of(who);
        let at = match find_entry(&self.entries, chat, id_chars.as_slice()) {
            Some(at) => {
                proof {
                    lemma_entry_at(entries, chat, id@);
                }
                at
            }
            None => {
                if self.entries.len() == MESSAGES {
                    self.entries.remove(0);
                    assert(self@ =~= entries.drop_first());
                }
                self.entries.push(Entry { chat, id: id.to_owned(), by: Vec::new() });
                assert(self.entries@.last().by@.map_values(|pair: (String, String)| pair_view(pair)) =~= Seq::<(Seq<char>, Seq<char>)>::empty());
                self.entries.len() - 1
            }
        };
        let ghost base = self@;
        let ghost target = base[at as int];
        // The reactions of everyone else on this message.
        let mut kept: Vec<(String, String)> = Vec::new();
        let count = self.entries[at].by.len();
        let mut k: usize = 0;
        while k < count
            invariant
                0 <= k <= count,
                at < self.entries@.len(),
                base == self@,
                target == base[at as int],
                who_chars@ == who@,
                count == target.2.len(),
                kept@.map_values(|pair: (String, String)| pair_view(pair)) == without(target.2.take(k as int), who@),
            decreases count - k,
        {
            let person = chars_of(self.entries[at].by[k].0.as_str());
            assert(target.2[k as int] == pair_view(self.entries@[at as int].by@[k as int]));
            assert(target.2.take(k + 1).drop_last() =~= target.2.take(k as int));
            if !same_chars(person.as_slice(), who_chars.as_slice()) {
                let pair = (self.entries[at].by[k].0.clone(), self.entries[at].by[k].1.clone());
                kept.push(pair);
            }
            assert(kept@.map_values(|pair: (String, String)| pair_view(pair)) =~= without(target.2.take(k + 1), who@));
            k = k + 1;
        }
        assert(target.2.take(count as int) =~= target.2);
        if !emoji.is_empty() {
            kept.push((who.to_owned(), emoji.to_owned()));
        }
        let ghost by = kept@.map_values(|pair: (String, String)| pair_view(pair));
        assert(by =~= if emoji@.len() > 0 { without(target.2, who@).push((who@, emoji@)) } else { without(target.2, who@) });
        let old_entry_chat = self.entries[at].chat;
        let old_entry_id = self.entries[at].id.clone();
        self.entries.set(at, Entry { chat: old_entry_chat, id: old_entry_id, by: kept });
        proof {
            assert(target.0 == chat && target.1 == id@) by {
                if entry_at(entries, chat, id@) is Some {
                    lemma_entry_at(entries, chat, id@);
                } else {
                }
            }
            assert(self@ =~= after_set(entries, chat, id@, who@, emoji@));
        }
    }
}

proof fn lemma_entry_at(entries: Seq<EntryView>, chat: usize, id: Seq<char>)
    requires
        entry_at(entries, chat, id) is Some,
    ensures
        0 <= entry_at(entries, chat, id)->0 < entries.len(),
        entries[entry_at(entries, chat, id)->0].0 == chat,
        entries[entry_at(entries, chat, id)->0].1 == id,
    decreases entries.len(),
{
    if entries.len() > 0 && !(entries[0].0 == chat && entries[0].1 == id) {
        lemma_entry_at(entries.drop_first(), chat, id);
    }
}

spec fn count_view(pair: (Vec<char>, usize)) -> (Seq<char>, nat) {
    (pair.0@, pair.1 as nat)
}

spec fn counts_view(counts: Seq<(Vec<char>, usize)>) -> Seq<(Seq<char>, nat)> {
    counts.map_values(|pair: (Vec<char>, usize)| count_view(pair))
}

proof fn lemma_add_one(counts: Seq<(Seq<char>, nat)>, emoji: Seq<char>, i: int)
    requires
        0 <= i <= counts.len(),
        forall|j: int| 0 <= j < i ==> counts[j].0 != emoji,
        i == counts.len() || counts[i].0 == emoji,
    ensures
        add_one(counts, emoji) == if i == counts.len() { counts.push((emoji, 1nat)) } else { counts.update(i, (emoji, counts[i].1 + 1)) },
    decreases i,
{
    if i > 0 {
        lemma_add_one(counts.drop_first(), emoji, i - 1);
        if i == counts.len() {
            assert(seq![counts[0]] + counts.drop_first().push((emoji, 1nat)) =~= counts.push((emoji, 1nat)));
        } else {
            assert(seq![counts[0]] + counts.drop_first().update(i - 1, (emoji, counts[i].1 + 1)) =~= counts.update(i, (emoji, counts[i].1 + 1)));
        }
    } else if counts.len() == 0 {
        assert(seq![(emoji, 1nat)] =~= counts.push((emoji, 1nat)));
    }
}

proof fn lemma_place(sorted: Seq<(Seq<char>, nat)>, item: (Seq<char>, nat), p: int)
    requires
        0 <= p <= sorted.len(),
        forall|j: int| p <= j < sorted.len() ==> sorted[j].1 < item.1,
        p == 0 || sorted[p - 1].1 >= item.1,
    ensures
        place(sorted, item) == sorted.insert(p, item),
    decreases sorted.len(),
{
    if sorted.len() == 0 {
        assert(seq![item] =~= sorted.insert(p, item));
    } else if sorted.last().1 >= item.1 {
        assert(sorted.push(item) =~= sorted.insert(p, item));
    } else {
        lemma_place(sorted.drop_last(), item, p);
        assert(sorted.drop_last().insert(p, item).push(sorted.last()) =~= sorted.insert(p, item));
    }
}

fn push_str(out: &mut Vec<char>, text: &[char])
    ensures
        final(out)@ == old(out)@ + text@,
{
    let mut i: usize = 0;
    while i < text.len()
        invariant
            0 <= i <= text@.len(),
            out@ == old(out)@ + text@.take(i as int),
        decreases text@.len() - i,
    {
        out.push(text[i]);
        assert(out@ =~= old(out)@ + text@.take(i + 1));
        i = i + 1;
    }
    assert(text@.take(i as int) =~= text@);
}

impl Reactions {
    /// The `REACTIONS` line for a message: our emoji and `emoji:count` pairs, most used first.
    pub fn line(&self, chat: usize, id: &str) -> (line: Vec<String>)
        ensures
            line.deep_view() == reactions_line(self@, chat, id@),
    {
        let ghost entries = self@;
        let id_chars = chars_of(id);
        let found = find_entry(&self.entries, chat, id_chars.as_slice());
        let empty: Vec<(String, String)> = Vec::new();
        let by: &Vec<(String, String)> = match found {
            Some(at) => {
                proof {
                    lemma_entry_at(entries, chat, id@);
                }
                &self.entries[at].by
            }
            None => &empty,
        };
        let ghost by_view = by@.map_values(|pair: (String, String)| pair_view(pair));
        proof {
            match found {
                Some(at) => {
                    lemma_entry_at(entries, chat, id@);
                    assert(entries[at as int] == entry_view(self.entries@[at as int]));
                    assert(by_view =~= entries[at as int].2);
                }
                None => {
                    assert(entry_at(entries, chat, id@) is None);
                    assert(by_view =~= Seq::<(Seq<char>, Seq<char>)>::empty());
                }
            }
        }
        assert(by_view == match entry_at(entries, chat, id@) { Some(i) => entries[i].2, None => seq![] });
        // Our emoji.
        let me = chars_of(ME);
        let mut mine_text: Vec<char> = Vec::new();
        let mut i: usize = 0;
        let mut done = false;
        assert(by_view.skip(0) =~= by_view);
        while i < by.len() && !done
            invariant
                0 <= i <= by@.len(),
                by_view == by@.map_values(|pair: (String, String)| pair_view(pair)),
                me@ == ME@,
                done ==> mine_text@ == mine(by_view),
                !done ==> mine(by_view) == mine(by_view.skip(i as int)),
                !done ==> mine_text@ == Seq::<char>::empty(),
            decreases by@.len() - i + if done { 0int } else { 1int },
        {
            let person = chars_of(by[i].0.as_str());
            assert(by_view.skip(i as int)[0] == by_view[i as int]);
            if same_chars(person.as_slice(), me.as_slice()) {
                mine_text = chars_of(by[i].1.as_str());
                done = true;
            } else {
                assert(by_view.skip(i as int).drop_first() =~= by_view.skip(i + 1));
                i = i + 1;
            }
        }
        assert(mine_text@ == mine(by_view)) by {
            if !done {
                assert(by_view.skip(i as int).len() == 0);
                assert(mine_text@ =~= Seq::<char>::empty());
            }
        }
        // How many used each emoji, in the order they first appear.
        let mut counts: Vec<(Vec<char>, usize)> = Vec::new();
        let mut j: usize = 0;
        while j < by.len()
            invariant
                0 <= j <= by@.len(),
                by_view == by@.map_values(|pair: (String, String)| pair_view(pair)),
                counts_view(counts@) == tally(by_view.take(j as int)),
                counts@.len() <= j,
                forall|k: int| 0 <= k < counts@.len() ==> #[trigger] counts@[k].1 <= j,
            decreases by@.len() - j,
        {
            let emoji = chars_of(by[j].1.as_str());
            assert(by_view.take(j + 1).drop_last() =~= by_view.take(j as int));
            assert(by_view.take(j + 1).last() == by_view[j as int]);
            let ghost before = counts_view(counts@);
            let mut at: usize = 0;
            while at < counts.len() && !same_chars(counts[at].0.as_slice(), emoji.as_slice())
                invariant
                    0 <= at <= counts@.len(),
                    before == counts_view(counts@),
                    forall|k: int| 0 <= k < at ==> before[k].0 != emoji@,
                decreases counts@.len() - at,
            {
                at = at + 1;
            }
            proof {
                lemma_add_one(before, emoji@, at as int);
            }
            if at < counts.len() {
                let n = counts[at].1 + 1;
                let known = counts[at].0.clone();
                counts.set(at, (known, n));
            } else {
                counts.push((emoji, 1));
            }
            assert(counts_view(counts@) =~= tally(by_view.take(j + 1)));
            j = j + 1;
        }
        assert(by_view.take(j as int) =~= by_view);
        // Most used first, keeping the first-seen order among equals.
        let mut sorted: Vec<(Vec<char>, usize)> = Vec::new();
        let mut m: usize = 0;
        let ghost all_counts = counts_view(counts@);
        while m < counts.len()
            invariant
                0 <= m <= counts@.len(),
                all_counts == counts_view(counts@),
                counts_view(sorted@) == most_used_first(all_counts.take(m as int)),
            decreases counts@.len() - m,
        {
            let item = (counts[m].0.clone(), counts[m].1);
            let ghost before = counts_view(sorted@);
            let mut p: usize = sorted.len();
            while p > 0 && sorted[p - 1].1 < item.1
                invariant
                    0 <= p <= sorted@.len(),
                    before == counts_view(sorted@),
                    forall|k: int| p <= k < sorted@.len() ==> before[k].1 < item.1,
                decreases p,
            {
                p = p - 1;
            }
            proof {
                lemma_place(before, count_view(item), p as int);
                assert(all_counts.take(m + 1).drop_last() =~= all_counts.take(m as int));
                assert(all_counts.take(m + 1).last() == count_view(item));
            }
            sorted.insert(p, item);
            assert(counts_view(sorted@) =~= before.insert(p as int, count_view(item)));
            m = m + 1;
        }
        assert(all_counts.take(m as int) =~= all_counts);
        let ghost ordered = counts_view(sorted@);
        let ghost shown = if ordered.len() > SHOWN { ordered.take(SHOWN as int) } else { ordered };
        // The first three, as `emoji:count` separated by spaces.
        let mut pairs: Vec<char> = Vec::new();
        let mut q: usize = 0;
        let limit: usize = if sorted.len() > SHOWN { SHOWN } else { sorted.len() };
        while q < limit
            invariant
                0 <= q <= limit,
                limit == shown.len(),
                limit <= sorted@.len(),
                ordered == counts_view(sorted@),
                shown == if ordered.len() > SHOWN { ordered.take(SHOWN as int) } else { ordered },
                pairs@ == joined(shown.take(q as int)),
            decreases limit - q,
        {
            if q > 0 {
                pairs.push(' ');
            }
            push_str(&mut pairs, sorted[q].0.as_slice());
            pairs.push(':');
            let n: usize = if sorted[q].1 < 99 { sorted[q].1 } else { 99 };
            push_decimal(n as u64, &mut pairs);
            assert(shown.take(q + 1).drop_last() =~= shown.take(q as int));
            assert(shown.take(q + 1).last() == ordered[q as int]);
            assert(pairs@ =~= joined(shown.take(q + 1)));
            q = q + 1;
        }
        assert(shown.take(q as int) =~= shown);
        let mut line: Vec<String> = Vec::new();
        line.push("REACTIONS".to_owned());
        let mut chat_digits: Vec<char> = Vec::new();
        push_decimal(chat as u64, &mut chat_digits);
        assert(chat_digits@ =~= decimal(chat as nat));
        line.push(string_of(chat_digits.as_slice()));
        line.push(id.to_owned());
        line.push(string_of(mine_text.as_slice()));
        line.push(string_of(pairs.as_slice()));
        assert(line.deep_view() =~= reactions_line(entries, chat, id@));
        line
    }
}

impl Default for Reactions {
    fn default() -> (reactions: Self)
        ensures
            reactions@ == Seq::<EntryView>::empty(),
            reactions.wf(),
    {
        Reactions::new()
    }
}

/// What `who` reacted with, in the order it was kept.
pub open spec fn reactions_of(by: Seq<(Seq<char>, Seq<char>)>, who: Seq<char>) -> Seq<Seq<char>>
    decreases by.len(),
{
    if by.len() == 0 {
        seq![]
    } else {
        let rest = reactions_of(by.drop_last(), who);
        if by.last().0 == who { rest.push(by.last().1) } else { rest }
    }
}

/// The reactions kept for message `id` of `chat` (none when it is not kept).
pub open spec fn reactions_to(entries: Seq<EntryView>, chat: usize, id: Seq<char>) -> Seq<(Seq<char>, Seq<char>)> {
    match entry_at(entries, chat, id) {
        Some(k) => entries[k].2,
        None => seq![],
    }
}

/// `entry_at` finds the first entry of the message, and only when there is one.
proof fn lemma_entry_at_first(entries: Seq<EntryView>, chat: usize, id: Seq<char>)
    ensures
        match entry_at(entries, chat, id) {
            Some(k) => 0 <= k < entries.len() && entries[k].0 == chat && entries[k].1 == id
                && forall|j: int| 0 <= j < k ==> !(#[trigger] entries[j].0 == chat && entries[j].1 == id),
            None => forall|j: int| 0 <= j < entries.len() ==> !(#[trigger] entries[j].0 == chat && entries[j].1 == id),
        },
    decreases entries.len(),
{
    if entries.len() > 0 {
        lemma_entry_at_first(entries.drop_first(), chat, id);
        assert forall|j: int| 0 < j < entries.len() implies #[trigger] entries[j] == entries.drop_first()[j - 1] by {}
    }
}

/// An entry of the message with none of it before is the one `entry_at` finds.
proof fn lemma_entry_at_is(entries: Seq<EntryView>, chat: usize, id: Seq<char>, k: int)
    requires
        0 <= k < entries.len(),
        entries[k].0 == chat && entries[k].1 == id,
        forall|j: int| 0 <= j < k ==> !(#[trigger] entries[j].0 == chat && entries[j].1 == id),
    ensures
        entry_at(entries, chat, id) == Some(k),
{
    lemma_entry_at_first(entries, chat, id);
    match entry_at(entries, chat, id) {
        Some(f) => {
            if f < k {
                assert(entries[f].0 == chat && entries[f].1 == id);
            } else if f > k {
                assert(entries[k].0 == chat && entries[k].1 == id);
            }
        },
        None => {
            assert(entries[k].0 == chat && entries[k].1 == id);
        },
    }
}

/// Taking `who`'s reaction out leaves none of theirs and everyone else's as it was.
proof fn lemma_without(by: Seq<(Seq<char>, Seq<char>)>, who: Seq<char>, other: Seq<char>)
    ensures
        reactions_of(without(by, who), who) == Seq::<Seq<char>>::empty(),
        other != who ==> reactions_of(without(by, who), other) == reactions_of(by, other),
    decreases by.len(),
{
    if by.len() > 0 {
        lemma_without(by.drop_last(), who, other);
        let rest = without(by.drop_last(), who);
        if by.last().0 != who {
            assert(rest.push(by.last()).drop_last() =~= rest);
        }
    }
}

/// After `who` reacts with `emoji` to message `id` of `chat`, that message holds exactly one
/// reaction of theirs, `emoji` (none when `emoji` is empty: the reaction is taken back), and the
/// reactions of everyone else to it are unchanged. At most `MESSAGES` messages are kept: a new
/// message when all of them are taken makes the one kept longest go.
pub proof fn lemma_set_reaction(entries: Seq<EntryView>, chat: usize, id: Seq<char>, who: Seq<char>, emoji: Seq<char>,
    other: Seq<char>)
    requires
        entries.len() <= MESSAGES,
    ensures
        reactions_of(reactions_to(after_set(entries, chat, id, who, emoji), chat, id), who)
            == (if emoji.len() > 0 { seq![emoji] } else { Seq::<Seq<char>>::empty() }),
        other != who ==> reactions_of(reactions_to(after_set(entries, chat, id, who, emoji), chat, id), other)
            == reactions_of(reactions_to(entries, chat, id), other),
        after_set(entries, chat, id, who, emoji).len() <= MESSAGES,
        entry_at(entries, chat, id) is None && entries.len() == MESSAGES
            ==> after_set(entries, chat, id, who, emoji).drop_last() == entries.drop_first(),
{
    let after = after_set(entries, chat, id, who, emoji);
    lemma_entry_at_first(entries, chat, id);
    match entry_at(entries, chat, id) {
        Some(k) => {
            let by0 = entries[k].2;
            let others = without(by0, who);
            let by = if emoji.len() > 0 { others.push((who, emoji)) } else { others };
            assert(after == entries.update(k, (chat, id, by)));
            lemma_entry_at_is(after, chat, id, k);
            lemma_without(by0, who, other);
            if emoji.len() > 0 {
                assert(by.drop_last() =~= others);
            }
        },
        None => {
            let kept = if entries.len() == MESSAGES { entries.drop_first() } else { entries };
            let others = without(Seq::<(Seq<char>, Seq<char>)>::empty(), who);
            let by = if emoji.len() > 0 { others.push((who, emoji)) } else { others };
            assert(after =~= kept.push((chat, id, by)));
            assert forall|j: int| 0 <= j < kept.len() implies !(#[trigger] after[j].0 == chat && after[j].1 == id) by {
                if entries.len() == MESSAGES {
                    assert(after[j] == entries[j + 1]);
                } else {
                    assert(after[j] == entries[j]);
                }
            }
            lemma_entry_at_is(after, chat, id, kept.len() as int);
            lemma_without(Seq::<(Seq<char>, Seq<char>)>::empty(), who, other);
            if emoji.len() > 0 {
                assert(by.drop_last() =~= others);
            }
            if entries.len() == MESSAGES {
                assert(after.drop_last() =~= entries.drop_first());
            }
        },
    }
}


/// `who`'s reactions in `by` are their reaction in its first pair, then those in the rest.
proof fn lemma_reactions_first(by: Seq<(Seq<char>, Seq<char>)>, who: Seq<char>)
    requires
        by.len() > 0,
    ensures
        reactions_of(by, who) == (if by[0].0 == who { seq![by[0].1] } else { Seq::<Seq<char>>::empty() })
            + reactions_of(by.drop_first(), who),
    decreases by.len(),
{
    if by.len() > 1 {
        lemma_reactions_first(by.drop_last(), who);
        assert(by.drop_last().drop_first() =~= by.drop_first().drop_last());
        assert(by.drop_last()[0] == by[0]);
        assert(by.drop_first().last() == by.last());
    } else {
        assert(by.drop_first() =~= Seq::<(Seq<char>, Seq<char>)>::empty());
        assert(by.drop_last() =~= Seq::<(Seq<char>, Seq<char>)>::empty());
    }
}

/// The emoji shown as ours is our first reaction kept, or none.
proof fn lemma_mine(by: Seq<(Seq<char>, Seq<char>)>)
    ensures
        mine(by) == (if reactions_of(by, ME@).len() > 0 { reactions_of(by, ME@)[0] } else { Seq::<char>::empty() }),
    decreases by.len(),
{
    if by.len() > 0 {
        lemma_reactions_first(by, ME@);
        lemma_mine(by.drop_first());
    }
}

/// After we react with `emoji` to a message, the line of the message shows `emoji` as ours (none
/// when `emoji` is empty).
pub proof fn lemma_set_mine(entries: Seq<EntryView>, chat: usize, id: Seq<char>, emoji: Seq<char>)
    requires
        entries.len() <= MESSAGES,
    ensures
        reactions_line(after_set(entries, chat, id, ME@, emoji), chat, id)[3] == emoji,
{
    lemma_set_reaction(entries, chat, id, ME@, emoji, ME@);
    let after = after_set(entries, chat, id, ME@, emoji);
    lemma_mine(reactions_to(after, chat, id));
}

/// At most 64 messages have their reactions kept: a reaction to a message not kept yet, with 64
/// kept, forgets the one kept longest (kept once), whose line then shows no reactions at all.
pub proof fn lemma_set_forgets_first(entries: Seq<EntryView>, chat: usize, id: Seq<char>, who: Seq<char>, emoji: Seq<char>)
    requires
        entries.len() == MESSAGES,
        entry_at(entries, chat, id) is None,
        entry_at(entries.drop_first(), entries[0].0, entries[0].1) is None,
    ensures
        reactions_to(after_set(entries, chat, id, who, emoji), entries[0].0, entries[0].1) == Seq::<(Seq<char>, Seq<char>)>::empty(),
        reactions_line(after_set(entries, chat, id, who, emoji), entries[0].0, entries[0].1)[3] == Seq::<char>::empty(),
        reactions_line(after_set(entries, chat, id, who, emoji), entries[0].0, entries[0].1)[4] == Seq::<char>::empty(),
{
    let after = after_set(entries, chat, id, who, emoji);
    let (c0, i0) = (entries[0].0, entries[0].1);
    lemma_entry_at_first(entries, chat, id);
    lemma_entry_at_first(entries.drop_first(), c0, i0);
    lemma_set_reaction(entries, chat, id, who, emoji, who);
    lemma_entry_at_first(after, c0, i0);
    assert(!(entries[0].0 == chat && entries[0].1 == id));
    match entry_at(after, c0, i0) {
        Some(k) => {
            if k < after.len() - 1 {
                assert(after[k] == after.drop_last()[k]);
                assert(after.drop_last()[k] == entries.drop_first()[k]);
                assert(entries.drop_first()[k].0 == c0 && entries.drop_first()[k].1 == i0);
            } else {
                assert(after[k].0 == chat && after[k].1 == id);
            }
        },
        None => {},
    }
    assert(most_used_first(tally(Seq::<(Seq<char>, Seq<char>)>::empty())) =~= Seq::<(Seq<char>, nat)>::empty());
}

} // verus!
