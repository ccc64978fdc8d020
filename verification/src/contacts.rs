//! The address book the ui asks about. The ui keeps room for a few dozen contacts only; the whole book
//! lives here and the ui asks for the names that match what the user typed (`CONTACTS query`).

use vstd::prelude::*;
use crate::text::{chars_of, string_of, folded, fold_all, is_ascii_lowercase, seq_order, lemma_order_antisymmetric,
    lemma_order_equal, lemma_order_transitive, compare_chars, contains_seq, contains_chars, trim, trim_chars, has_char,
    letter_form, lemma_fold_letter};

verus! {

/// Whether the name is filed among the letters (its folded initial is `a`..`z`) rather than before them.
pub open spec fn starts_with_letter(name: Seq<char>) -> bool {
    folded(name).len() > 0 && is_ascii_lowercase(folded(name)[0])
}

/// The order of the book: numbers and symbols before the letters, then names in alphabetical order
/// without accents or case (-1, 0 or 1; 0 when the two names are the same to the book).
pub open spec fn name_order(a: Seq<char>, b: Seq<char>) -> int {
    if starts_with_letter(a) == starts_with_letter(b) {
        seq_order(folded(a), folded(b))
    } else if !starts_with_letter(a) {
        -1
    } else {
        1
    }
}

pub proof fn lemma_name_order(a: Seq<char>, b: Seq<char>, c: Seq<char>)
    ensures
        name_order(a, b) == -name_order(b, a),
        -1 <= name_order(a, b) <= 1,
        name_order(a, b) < 0 && name_order(b, c) < 0 ==> name_order(a, c) < 0,
        name_order(a, b) == 0 ==> folded(a) == folded(b),
{
    lemma_order_antisymmetric(folded(a), folded(b));
    lemma_order_equal(folded(a), folded(b));
    if name_order(a, b) < 0 && name_order(b, c) < 0 && starts_with_letter(a) == starts_with_letter(c) {
        lemma_order_transitive(folded(a), folded(b), folded(c));
    }
}

/// Whether `query` occurs in `name`, case and accents aside.
pub open spec fn name_matches(name: Seq<char>, query: Seq<char>) -> bool {
    contains_seq(folded(name), folded(query))
}

/// Case and accents do not matter to a match: a name whose letters are the plain letters `plain`
/// written any way (capitals, accents) matches a query whose letters are `plain_query` written any
/// way, when `plain` contains `plain_query`.
pub proof fn lemma_match_without_accents(name: Seq<char>, query: Seq<char>, plain: Seq<char>, plain_query: Seq<char>)
    requires
        name.len() == plain.len(),
        query.len() == plain_query.len(),
        forall|i: int| 0 <= i < name.len() ==> letter_form(#[trigger] name[i], plain[i]),
        forall|i: int| 0 <= i < query.len() ==> letter_form(#[trigger] query[i], plain_query[i]),
        contains_seq(plain, plain_query),
    ensures
        name_matches(name, query),
{
    assert forall|i: int| 0 <= i < name.len() implies #[trigger] folded(name)[i] == plain[i] by {
        lemma_fold_letter(name[i], plain[i]);
    }
    assert forall|i: int| 0 <= i < query.len() implies #[trigger] folded(query)[i] == plain_query[i] by {
        lemma_fold_letter(query[i], plain_query[i]);
    }
    assert(folded(name) =~= plain);
    assert(folded(query) =~= plain_query);
}

/// The names among `names` that contain `query`, in order.
pub open spec fn matching(names: Seq<Seq<char>>, query: Seq<char>) -> Seq<Seq<char>>
    decreases names.len(),
{
    if names.len() == 0 {
        seq![]
    } else {
        let before = matching(names.drop_last(), query);
        if name_matches(names.last(), query) {
            before.push(names.last())
        } else {
            before
        }
    }
}

proof fn lemma_matching_prefix(names: Seq<Seq<char>>, query: Seq<char>, i: int, j: int)
    requires
        0 <= i <= j <= names.len(),
    ensures
        matching(names.take(i), query).len() <= matching(names.take(j), query).len(),
        matching(names.take(j), query).take(matching(names.take(i), query).len() as int) == matching(names.take(i), query),
    decreases j - i,
{
    if i < j {
        lemma_matching_prefix(names, query, i, j - 1);
        assert(names.take(j).drop_last() =~= names.take(j - 1));
        let a = matching(names.take(i), query);
        let b = matching(names.take(j - 1), query);
        let c = matching(names.take(j), query);
        assert(c.take(a.len() as int) =~= b.take(a.len() as int));
    } else {
        assert(matching(names.take(j), query).take(matching(names.take(i), query).len() as int) =~= matching(names.take(i), query));
    }
}

pub open spec fn entry_view(entry: (String, Option<String>)) -> (Seq<char>, Option<Seq<char>>) {
    (entry.0@, match entry.1 { Some(id) => Some(id@), None => None })
}

pub struct ContactBook {
    /// Sorted by `name_order`, one entry per name, with whatever identifies the contact to the connection
    /// (its JID) when that is known.
    entries: Vec<(String, Option<String>)>,
}

impl View for ContactBook {
    type V = Seq<(Seq<char>, Option<Seq<char>>)>;

    closed spec fn view(&self) -> Seq<(Seq<char>, Option<Seq<char>>)> {
        self.entries@.map_values(|entry: (String, Option<String>)| entry_view(entry))
    }
}

/// Entries in the book's order, no two the same to it.
pub open spec fn sorted(entries: Seq<(Seq<char>, Option<Seq<char>>)>) -> bool {
    forall|i: int, j: int| 0 <= i < j < entries.len() ==> name_order(#[trigger] entries[i].0, #[trigger] entries[j].0) < 0
}

/// The names of the book, in order.
pub open spec fn names_of(entries: Seq<(Seq<char>, Option<Seq<char>>)>) -> Seq<Seq<char>> {
    entries.map_values(|entry: (Seq<char>, Option<Seq<char>>)| entry.0)
}

/// The place of `name` in the book, when a name the same to the book is there.
pub open spec fn position_of(entries: Seq<(Seq<char>, Option<Seq<char>>)>, name: Seq<char>) -> Option<int> {
    if exists|i: int| 0 <= i < entries.len() && name_order(entries[i].0, name) == 0 {
        Some(choose|i: int| 0 <= i < entries.len() && name_order(entries[i].0, name) == 0)
    } else {
        None
    }
}

/// The book after `name` (trimmed) is added with `id`.
pub open spec fn inserted(entries: Seq<(Seq<char>, Option<Seq<char>>)>, name: Seq<char>, id: Option<Seq<char>>,
    after: Seq<(Seq<char>, Option<Seq<char>>)>) -> bool {
    let name = trim(name);
    if name.len() == 0 || name.contains('\t') || name.contains('\n') {
        after == entries
    } else {
        match position_of(entries, name) {
            Some(at) => after == entries.update(at, (entries[at].0, if entries[at].1 is None { id } else { entries[at].1 })),
            None => sorted(after) && exists|at: int| 0 <= at <= entries.len() && after == entries.insert(at, (name, id)),
        }
    }
}

/// The sort key of a name, computed: whether it starts with a letter, and its folded characters.
fn key_of(name: &[char]) -> (key: (bool, Vec<char>))
    ensures
        key.0 == starts_with_letter(name@),
        key.1@ == folded(name@),
{
    let f = fold_all(name);
    let letter = f.len() > 0 && 'a' <= f[0] && f[0] <= 'z';
    (letter, f)
}

fn key_order(a: &(bool, Vec<char>), b: &(bool, Vec<char>)) -> (order: i8)
    requires
        exists|x: Seq<char>, y: Seq<char>| a.0 == starts_with_letter(x) && a.1@ == folded(x) && b.0 == starts_with_letter(y) && b.1@ == folded(y),
    ensures
        forall|x: Seq<char>, y: Seq<char>| a.0 == starts_with_letter(x) && a.1@ == folded(x) && b.0 == starts_with_letter(y) && b.1@ == folded(y)
            ==> order as int == #[trigger] name_order(x, y),
{
    if a.0 == b.0 {
        compare_chars(a.1.as_slice(), b.1.as_slice())
    } else if !a.0 {
        -1
    } else {
        1
    }
}

impl ContactBook {
    /// Whether the entries are in the book's order.
    pub closed spec fn wf(&self) -> bool {
        sorted(self@)
    }

    pub fn new() -> (book: Self)
        ensures
            book.wf(),
            book@ == Seq::<(Seq<char>, Option<Seq<char>>)>::empty(),
    {
        let book = ContactBook { entries: Vec::new() };
        assert(book@ =~= Seq::<(Seq<char>, Option<Seq<char>>)>::empty());
        book
    }

    /// Adds `name`; a name already there, or an empty one, changes nothing.
    pub fn insert(&mut self, name: &str)
        requires
            old(self).wf(),
        ensures
            final(self).wf(),
            inserted(old(self)@, name@, None, final(self)@),
    {
        self.insert_with_id(name, None);
    }

    /// Like `insert`, and remembers `id` for the name when it had none.
    pub fn insert_with_id(&mut self, name: &str, id: Option<&str>)
        requires
            old(self).wf(),
        ensures
            final(self).wf(),
            inserted(old(self)@, name@, match id { Some(i) => Some(i@), None => None }, final(self)@),
    {
        let ghost id_view = match id { Some(i) => Some(i@), None => None };
        let raw = chars_of(name);
        let trimmed = trim_chars(raw.as_slice());
        if trimmed.len() == 0 || has_char(trimmed.as_slice(), '\t') || has_char(trimmed.as_slice(), '\n') {
            return;
        }
        let key = key_of(trimmed.as_slice());
        let ghost entries = self@;
        let mut low: usize = 0;
        let mut high: usize = self.entries.len();
        while low < high
            invariant
                entries == self@,
                trimmed@ == trim(name@),
                trimmed@.len() > 0 && !trimmed@.contains('\t') && !trimmed@.contains('\n'),
                entries == old(self)@,
                id_view == match id { Some(i) => Some(i@), None => None },
                sorted(entries),
                0 <= low <= high <= entries.len(),
                entries.len() == self.entries@.len(),
                key.0 == starts_with_letter(trimmed@),
                key.1@ == folded(trimmed@),
                forall|i: int| 0 <= i < low ==> name_order(#[trigger] entries[i].0, trimmed@) < 0,
                forall|i: int| high <= i < entries.len() ==> name_order(#[trigger] entries[i].0, trimmed@) > 0,
            decreases high - low,
        {
            let mid = low + (high - low) / 2;
            let known = chars_of(self.entries[mid].0.as_str());
            assert(known@ == entries[mid as int].0);
            let known_key = key_of(known.as_slice());
            let order = key_order(&known_key, &key);
            assert(order as int == name_order(entries[mid as int].0, trimmed@));
            if order == 0 {
                proof {
                    assert(exists|i: int| 0 <= i < entries.len() && name_order(entries[i].0, trimmed@) == 0);
                    let at = choose|i: int| 0 <= i < entries.len() && name_order(entries[i].0, trimmed@) == 0;
                    if at != mid {
                        lemma_name_order(entries[at].0, trimmed@, entries[mid as int].0);
                        lemma_name_order(entries[mid as int].0, trimmed@, entries[at].0);
                        lemma_name_order(entries[at].0, entries[mid as int].0, trimmed@);
                        lemma_order_equal(folded(entries[at].0), folded(trimmed@));
                        lemma_order_equal(folded(entries[mid as int].0), folded(trimmed@));
                        lemma_order_equal(folded(entries[at].0), folded(entries[mid as int].0));
                        assert(false);
                    }
                    assert(position_of(entries, trimmed@) == Some(mid as int));
                    assert(trim(name@) == trimmed@);
                }
                if self.entries[mid].1.is_none() {
                    let new_id = match id { Some(i) => Some(i.to_owned()), None => None };
                    let name_here = self.entries[mid].0.clone();
                    let ghost before = self.entries@;
                    assert(name_here@ == entries[mid as int].0);
                    assert(match new_id { Some(x) => Some(x@), None => None } == id_view);
                    let entry = (name_here, new_id);
                    assert(entry_view(entry) == (entries[mid as int].0, id_view));
                    self.entries.set(mid, entry);
                    assert(self.entries@ == before.update(mid as int, entry));
                    assert(self@ =~= entries.update(mid as int, (entries[mid as int].0, id_view)));
                } else {
                    assert(entries.update(mid as int, (entries[mid as int].0, entries[mid as int].1)) =~= entries);
                }
                return;
            }
            if order < 0 {
                proof {
                    assert forall|i: int| 0 <= i <= mid implies name_order(#[trigger] entries[i].0, trimmed@) < 0 by {
                        if i < mid {
                            lemma_name_order(entries[i].0, entries[mid as int].0, trimmed@);
                        }
                    }
                }
                low = mid + 1;
            } else {
                proof {
                    assert forall|i: int| mid <= i < entries.len() implies name_order(#[trigger] entries[i].0, trimmed@) > 0 by {
                        if i > mid {
                            lemma_name_order(trimmed@, entries[mid as int].0, entries[i].0);
                            lemma_name_order(entries[mid as int].0, trimmed@, entries[i].0);
                            lemma_name_order(entries[i].0, trimmed@, entries[mid as int].0);
                        }
                    }
                }
                high = mid;
            }
        }
        proof {
            if exists|i: int| 0 <= i < entries.len() && name_order(entries[i].0, trimmed@) == 0 {
                let at = choose|i: int| 0 <= i < entries.len() && name_order(entries[i].0, trimmed@) == 0;
                assert(at < low || at >= high);
                assert(false);
            }
        }
        let new_id = match id { Some(i) => Some(i.to_owned()), None => None };
        self.entries.insert(low, (string_of(trimmed.as_slice()), new_id));
        assert(self@ =~= entries.insert(low as int, (trimmed@, id_view)));
        proof {
            let after = self@;
            assert forall|i: int, j: int| 0 <= i < j < after.len() implies name_order(#[trigger] after[i].0, #[trigger] after[j].0) < 0 by {
                if j < low {
                } else if j == low {
                } else if i < low {
                    lemma_name_order(after[i].0, trimmed@, after[j].0);
                    lemma_name_order(after[j].0, trimmed@, after[i].0);
                } else if i == low {
                    lemma_name_order(after[j].0, trimmed@, after[i].0);
                } else {
                }
            }
        }
    }

    /// What identifies the contact called exactly `name`, if it is known.
    pub fn id_of(&self, name: &str) -> (id: Option<&str>)
        requires
            self.wf(),
        ensures
            (forall|i: int| 0 <= i < self@.len() ==> self@[i].0 != name@) ==> id is None,
            forall|i: int| 0 <= i < self@.len() && #[trigger] self@[i].0 == name@ ==>
                match self@[i].1 {
                    Some(known) => id matches Some(found) && found@ == known,
                    None => id is None,
                },
    {
        let wanted = chars_of(name);
        let mut i: usize = 0;
        while i < self.entries.len()
            invariant
                0 <= i <= self@.len(),
                self@.len() == self.entries@.len(),
                self.wf(),
                wanted@ == name@,
                forall|j: int| 0 <= j < i ==> self@[j].0 != name@,
            decreases self@.len() - i,
        {
            let known = chars_of(self.entries[i].0.as_str());
            assert(known@ == self@[i as int].0);
            if crate::text::same_chars(known.as_slice(), wanted.as_slice()) {
                proof {
                    assert forall|k: int| 0 <= k < self@.len() && #[trigger] self@[k].0 == name@ implies k == i by {
                        if k != i {
                            lemma_order_equal(folded(self@[k].0), folded(self@[i as int].0));
                            if k < i {
                                assert(name_order(self@[k].0, self@[i as int].0) < 0);
                            } else {
                                assert(name_order(self@[i as int].0, self@[k].0) < 0);
                            }
                        }
                    }
                }
                return match &self.entries[i].1 {
                    Some(id) => Some(id.as_str()),
                    None => None,
                };
            }
            i = i + 1;
        }
        None
    }

    pub fn len(&self) -> (count: usize)
        ensures
            count == self@.len(),
    {
        self.entries.len()
    }

    pub fn is_empty(&self) -> (empty: bool)
        ensures
            empty == (self@.len() == 0),
    {
        self.entries.len() == 0
    }

    /// The first `limit` names, in order, that contain `query`.
    pub fn search(&self, query: &str, limit: usize) -> (names: Vec<&str>)
        ensures
            names@.map_values(|name: &str| name@) == matching(names_of(self@), query@).take(
                if matching(names_of(self@), query@).len() < limit { matching(names_of(self@), query@).len() as int } else { limit as int }),
    {
        let wanted = fold_all(chars_of(query).as_slice());
        let ghost all = names_of(self@);
        let mut found: Vec<&str> = Vec::new();
        let mut i: usize = 0;
        while i < self.entries.len() && found.len() < limit
            invariant
                0 <= i <= self@.len(),
                self@.len() == self.entries@.len(),
                all == names_of(self@),
                wanted@ == folded(query@),
                found@.len() <= limit,
                found@.map_values(|name: &str| name@) == matching(all.take(i as int), query@),
            decreases self@.len() - i,
        {
            let name = self.entries[i].0.as_str();
            assert(name@ == all[i as int]);
            assert(all.take(i + 1).drop_last() =~= all.take(i as int));
            let folded_name = fold_all(chars_of(name).as_slice());
            if contains_chars(folded_name.as_slice(), wanted.as_slice()) {
                found.push(name);
            }
            assert(found@.map_values(|name: &str| name@) =~= matching(all.take(i + 1), query@));
            i = i + 1;
        }
        proof {
            lemma_matching_prefix(all, query@, i as int, all.len() as int);
            assert(all.take(all.len() as int) =~= all);
            let m = matching(all, query@);
            if i < all.len() {
                assert(found@.len() == limit);
            } else {
                assert(all.take(i as int) =~= all);
            }
            assert(found@.map_values(|name: &str| name@) =~= m.take(if m.len() < limit { m.len() as int } else { limit as int }));
        }
        found
    }
}

impl Default for ContactBook {
    fn default() -> (book: Self)
        ensures
            book.wf(),
            book@ == Seq::<(Seq<char>, Option<Seq<char>>)>::empty(),
    {
        ContactBook::new()
    }
}

/// Every name `matching` gives is one of `names`, at a place no earlier than its own.
proof fn lemma_matching_from(names: Seq<Seq<char>>, query: Seq<char>)
    ensures
        matching(names, query).len() <= names.len(),
        forall|i: int| 0 <= i < matching(names, query).len() ==> exists|k: int|
            #![trigger names[k]] i <= k < names.len() && #[trigger] matching(names, query)[i] == names[k],
    decreases names.len(),
{
    if names.len() > 0 {
        lemma_matching_from(names.drop_last(), query);
        let before = matching(names.drop_last(), query);
        assert forall|i: int| 0 <= i < matching(names, query).len() implies exists|k: int|
            #![trigger names[k]] i <= k < names.len() && #[trigger] matching(names, query)[i] == names[k] by {
            if i < before.len() {
                let k = choose|k: int| #![trigger names.drop_last()[k]] i <= k < names.drop_last().len() && before[i] == names.drop_last()[k];
                assert(matching(names, query)[i] == names[k]);
            } else {
                assert(matching(names, query)[i] == names[names.len() - 1]);
            }
        }
    }
}

/// What a search gives is in the book's order and holds no name twice: of two names it gives,
/// the first comes strictly before the second.
pub proof fn lemma_search_in_order(book: &ContactBook, query: Seq<char>)
    requires
        book.wf(),
    ensures
        forall|i: int, j: int| 0 <= i < j < matching(names_of(book@), query).len() ==>
            name_order(#[trigger] matching(names_of(book@), query)[i], #[trigger] matching(names_of(book@), query)[j]) < 0,
{
    lemma_matching_sorted(book@, query);
}

/// The names of sorted entries that match `query` are in the entries' order.
proof fn lemma_matching_sorted(entries: Seq<(Seq<char>, Option<Seq<char>>)>, query: Seq<char>)
    requires
        sorted(entries),
    ensures
        forall|i: int, j: int| 0 <= i < j < matching(names_of(entries), query).len() ==>
            name_order(#[trigger] matching(names_of(entries), query)[i], #[trigger] matching(names_of(entries), query)[j]) < 0,
    decreases entries.len(),
{
    let names = names_of(entries);
    if entries.len() > 0 {
        let rest = entries.drop_last();
        assert(names.drop_last() =~= names_of(rest));
        lemma_matching_sorted(rest, query);
        lemma_matching_from(names.drop_last(), query);
        let before = matching(names.drop_last(), query);
        assert forall|i: int, j: int| 0 <= i < j < matching(names, query).len() implies
            name_order(#[trigger] matching(names, query)[i], #[trigger] matching(names, query)[j]) < 0 by {
            if j < before.len() {
                assert(matching(names, query)[i] == before[i] && matching(names, query)[j] == before[j]);
            } else {
                let k = choose|k: int| #![trigger names.drop_last()[k]] i <= k < names.drop_last().len() && before[i] == names.drop_last()[k];
                assert(names[k] == entries[k].0);
                assert(names[names.len() - 1] == entries[entries.len() - 1].0);
                assert(name_order(entries[k].0, entries[entries.len() - 1].0) < 0);
            }
        }
    }
}

} // verus!
