//! A text box with a fixed capacity in bytes; typing past it is ignored. It has a caret, and a
//! selection when the anchor is somewhere else than the caret. Positions count characters.

use vstd::prelude::*;
use crate::text::{byte_at_char, char_at_byte, byte_offset, char_offset, byte_len, char_bytes, char_len, bytes_of, fit, fit_chars, lemma_byte_len_concat, lemma_fit,
    lemma_byte_len_prefix, string_of, slice_chars, is_whitespace, whitespace, on_boundary, lemma_char_at_byte_range,
    lemma_byte_at_char_order, lemma_char_at_byte_of};

verus! {

/// Whether `c` is a letter or a digit in Unicode's sense (`char::is_alphanumeric`).
pub uninterp spec fn is_alphanumeric(c: char) -> bool;

/// `char::is_alphanumeric`: Unicode's Alphabetic or Numeric property.
#[verifier::external_body]
pub fn alphanumeric(c: char) -> (yes: bool)
    ensures
        yes == is_alphanumeric(c),
{
    c.is_alphanumeric()
}

/// A character that belongs to a word for the purposes of moving and deleting by word.
pub open spec fn is_word(c: char) -> bool {
    is_alphanumeric(c) || c == '_'
}

pub fn word_char(c: char) -> (yes: bool)
    ensures
        yes == is_word(c),
{
    c == '_' || alphanumeric(c)
}

/// The kind of run a double click selects: a word (0), white space (1), or punctuation (2).
pub open spec fn char_class(c: char) -> int {
    if is_word(c) { 0 } else if is_whitespace(c) { 1 } else { 2 }
}

fn class_of(c: char) -> (k: u8)
    ensures
        k as int == char_class(c),
{
    if word_char(c) { 0 } else if whitespace(c) { 1 } else { 2 }
}

/// How many characters at the end of `s` are (`word`) or are not word characters.
pub open spec fn trailing_word(s: Seq<char>, word: bool) -> nat
    decreases s.len(),
{
    if s.len() > 0 && is_word(s.last()) == word { 1 + trailing_word(s.drop_last(), word) } else { 0 }
}

/// How many characters at the start of `s` are (`word`) or are not word characters.
pub open spec fn leading_word(s: Seq<char>, word: bool) -> nat
    decreases s.len(),
{
    if s.len() > 0 && is_word(s[0]) == word { 1 + leading_word(s.drop_first(), word) } else { 0 }
}

/// How many characters at the end of `s` are of class `k`.
pub open spec fn trailing_class(s: Seq<char>, k: int) -> nat
    decreases s.len(),
{
    if s.len() > 0 && char_class(s.last()) == k { 1 + trailing_class(s.drop_last(), k) } else { 0 }
}

/// How many characters at the start of `s` are of class `k`.
pub open spec fn leading_class(s: Seq<char>, k: int) -> nat
    decreases s.len(),
{
    if s.len() > 0 && char_class(s[0]) == k { 1 + leading_class(s.drop_first(), k) } else { 0 }
}

proof fn lemma_trailing_bound(s: Seq<char>, word: bool, k: int)
    ensures
        trailing_word(s, word) <= s.len(),
        leading_word(s, word) <= s.len(),
        trailing_class(s, k) <= s.len(),
        leading_class(s, k) <= s.len(),
    decreases s.len(),
{
    if s.len() > 0 {
        lemma_trailing_bound(s.drop_last(), word, k);
        lemma_trailing_bound(s.drop_first(), word, k);
    }
}

/// Start of the word before `at`: back over spaces and punctuation, then over the word itself.
pub open spec fn word_before(text: Seq<char>, at: int) -> int {
    let past_gap = at - trailing_word(text.take(at), false);
    past_gap - trailing_word(text.take(past_gap), true)
}

/// End of the word after `at`.
pub open spec fn word_after(text: Seq<char>, at: int) -> int {
    let past_gap = at + leading_word(text.skip(at), false);
    past_gap + leading_word(text.skip(past_gap), true)
}

/// A text box as plain values: its characters, the caret and the anchor of the selection.
pub struct FieldView {
    pub text: Seq<char>,
    pub cursor: int,
    pub anchor: int,
}

pub open spec fn field_wf(f: FieldView, capacity: nat) -> bool {
    &&& 0 <= f.cursor <= f.text.len()
    &&& 0 <= f.anchor <= f.text.len()
    &&& byte_len(f.text) <= capacity
}

/// The selected range (start, end); empty when nothing is selected.
pub open spec fn selection_of(f: FieldView) -> (int, int) {
    (if f.cursor < f.anchor { f.cursor } else { f.anchor }, if f.cursor < f.anchor { f.anchor } else { f.cursor })
}

/// `start..end` taken out; the caret lands at `start`.
pub open spec fn removed(f: FieldView, start: int, end: int) -> FieldView {
    FieldView { text: f.text.take(start) + f.text.skip(end), cursor: start, anchor: start }
}

/// The selection taken out, if there is one.
pub open spec fn without_selection(f: FieldView) -> FieldView {
    let (start, end) = selection_of(f);
    if start == end { f } else { removed(f, start, end) }
}

pub open spec fn has_selection(f: FieldView) -> bool {
    selection_of(f).0 != selection_of(f).1
}

/// `s` typed at the caret, over the selection: the selection goes first, and `s` goes in only
/// where it fits.
pub open spec fn typed(f: FieldView, s: Seq<char>, capacity: nat) -> FieldView {
    let g = without_selection(f);
    if byte_len(g.text) + byte_len(s) <= capacity {
        FieldView { text: g.text.take(g.cursor) + s + g.text.skip(g.cursor), cursor: g.cursor + s.len(), anchor: g.cursor + s.len() }
    } else {
        g
    }
}

/// Text that fits is typed in whole after text with the caret at its end.
pub proof fn lemma_pushed_fits(f: FieldView, s: Seq<char>, capacity: nat)
    requires
        f.cursor == f.text.len(),
        f.anchor == f.text.len(),
        byte_len(f.text) + byte_len(s) <= capacity,
    ensures
        pushed(f, s, capacity).text == f.text + s,
    decreases s.len(),
{
    if s.len() > 0 {
        let c = s[0];
        assert(seq![c] + s.drop_first() =~= s);
        lemma_byte_len_concat(seq![c], s.drop_first());
        assert(seq![c].drop_last() =~= Seq::<char>::empty());
        assert(f.text.take(f.cursor) =~= f.text);
        assert(f.text.skip(f.cursor) =~= Seq::<char>::empty());
        let g = typed(f, seq![c], capacity);
        assert(g.text =~= f.text + seq![c]);
        lemma_byte_len_concat(f.text, seq![c]);
        lemma_pushed_fits(g, s.drop_first(), capacity);
        assert(f.text + seq![c] + s.drop_first() =~= f.text + s);
    } else {
        assert(f.text + s =~= f.text);
    }
}

/// The caret moved to `at` (at most the end); with `extend` the anchor stays, else it follows.
pub open spec fn moved(f: FieldView, at: int, extend: bool) -> FieldView {
    let cursor = if at < f.text.len() { at } else { f.text.len() as int };
    FieldView { text: f.text, cursor, anchor: if extend { f.anchor } else { cursor } }
}

/// Moving the caret, in byte offsets: it lands on `at` (at a boundary), or on the end when `at`
/// lies past it; with `extend` the selection runs between where the anchor was and the caret, else
/// it is empty at the caret. The text stays.
pub proof fn lemma_move_to_in_bytes(f: FieldView, at: int, extend: bool, capacity: nat)
    requires
        field_wf(f, capacity),
        0 <= at,
        at >= byte_len(f.text) || on_boundary(f.text, at),
    ensures
        ({
            let g = moved(f, char_at_byte(f.text, at), extend);
            let caret = byte_at_char(g.text, g.cursor);
            let anchor = byte_at_char(f.text, f.anchor);
            &&& g.text == f.text
            &&& caret == (if at < byte_len(f.text) { at } else { byte_len(f.text) as int })
            &&& (byte_at_char(g.text, selection_of(g).0), byte_at_char(g.text, selection_of(g).1)) == (if extend {
                    (if anchor < caret { anchor } else { caret }, if anchor < caret { caret } else { anchor })
                } else {
                    (caret, caret)
                })
        }),
{
    let t = f.text;
    let k = char_at_byte(t, at);
    lemma_char_at_byte_range(t, at);
    assert(t.take(t.len() as int) =~= t);
    let g = moved(f, k, extend);
    if at < byte_len(t) {
        lemma_byte_at_char_order(t, k, t.len() as int);
    }
    lemma_byte_at_char_order(t, f.anchor, g.cursor);
}

/// The run of like characters around `at` selected: a word, a stretch of spaces, or of punctuation.
pub open spec fn word_selected(f: FieldView, at: int) -> FieldView {
    let at = if at < f.text.len() { at } else { f.text.len() as int };
    if f.text.len() == 0 {
        f
    } else {
        let reference = if at < f.text.len() { f.text[at] } else { f.text[at - 1] };
        let k = char_class(reference);
        FieldView {
            text: f.text,
            anchor: at - trailing_class(f.text.take(at), k),
            cursor: at + leading_class(f.text.skip(at), k),
        }
    }
}

/// Backspace: the selection, else the character before the caret.
pub open spec fn popped(f: FieldView) -> FieldView {
    if has_selection(f) { without_selection(f) } else if f.cursor > 0 { removed(f, f.cursor - 1, f.cursor) } else { f }
}

pub open spec fn deleted_forward(f: FieldView) -> FieldView {
    if has_selection(f) { without_selection(f) } else if f.cursor < f.text.len() { removed(f, f.cursor, f.cursor + 1) } else { f }
}

pub open spec fn deleted_word_back(f: FieldView) -> FieldView {
    if has_selection(f) { without_selection(f) } else { removed(f, word_before(f.text, f.cursor), f.cursor) }
}

pub open spec fn deleted_word_forward(f: FieldView) -> FieldView {
    if has_selection(f) { without_selection(f) } else { removed(f, f.cursor, word_after(f.text, f.cursor)) }
}

pub open spec fn deleted_to_start(f: FieldView) -> FieldView {
    if has_selection(f) { without_selection(f) } else { removed(f, 0, f.cursor) }
}

pub open spec fn deleted_to_end(f: FieldView) -> FieldView {
    if has_selection(f) { without_selection(f) } else { removed(f, f.cursor, f.text.len() as int) }
}

/// `s` typed at the caret one character at a time; each one that does not fit is left out.
pub open spec fn pushed(f: FieldView, s: Seq<char>, capacity: nat) -> FieldView
    decreases s.len(),
{
    if s.len() == 0 {
        f
    } else {
        pushed(typed(f, seq![s[0]], capacity), s.drop_first(), capacity)
    }
}

/// A text box of at most `N` bytes.
pub struct Field<const N: usize> {
    chars: Vec<char>,
    cursor: usize,
    anchor: usize,
}

impl<const N: usize> View for Field<N> {
    type V = FieldView;

    closed spec fn view(&self) -> FieldView {
        FieldView { text: self.chars@, cursor: self.cursor as int, anchor: self.anchor as int }
    }
}

proof fn lemma_removed_fits(f: FieldView, start: int, end: int, capacity: nat)
    requires
        field_wf(f, capacity),
        0 <= start <= end <= f.text.len(),
    ensures
        field_wf(removed(f, start, end), capacity),
        removed(f, start, end).text.len() == f.text.len() - (end - start),
{
    lemma_byte_len_concat(f.text.take(start), f.text.skip(end));
    lemma_byte_len_concat(f.text.take(start), f.text.skip(start));
    assert(f.text.take(start) + f.text.skip(start) =~= f.text);
    lemma_byte_len_concat(f.text.subrange(start, end), f.text.skip(end));
    assert(f.text.subrange(start, end) + f.text.skip(end) =~= f.text.skip(start));
}

impl<const N: usize> Field<N> {
    /// The field keeps its caret and anchor in the text and its text within `N` bytes.
    pub closed spec fn wf(&self) -> bool {
        field_wf(self@, N as nat) && self.chars@.len() <= N
    }

    pub fn new() -> (field: Self)
        ensures
            field.wf(),
            field@ == (FieldView { text: Seq::empty(), cursor: 0, anchor: 0 }),
    {
        let field = Field { chars: Vec::new(), cursor: 0, anchor: 0 };
        assert(field@.text =~= Seq::<char>::empty());
        field
    }

    pub fn text(&self) -> (text: String)
        ensures
            text@ == self@.text,
    {
        string_of(self.chars.as_slice())
    }

    /// The characters of the box.
    pub fn chars(&self) -> (chars: &[char])
        ensures
            chars@ == self@.text,
    {
        self.chars.as_slice()
    }

    pub fn len(&self) -> (len: usize)
        ensures
            len == self@.text.len(),
    {
        self.chars.len()
    }

    /// What a well-formed box keeps: the caret and anchor in its text, at most `N` bytes and characters.
    pub proof fn lemma_wf(&self)
        requires
            self.wf(),
        ensures
            field_wf(self@, N as nat),
            self@.text.len() <= N,
    {
    }

    /// Where the selection started (the caret when nothing is selected).
    pub fn anchor(&self) -> (anchor: usize)
        ensures
            anchor == self@.anchor,
    {
        self.anchor
    }

    /// The caret, as a character position.
    pub fn caret(&self) -> (caret: usize)
        ensures
            caret == self@.cursor,
    {
        self.cursor
    }

    /// The caret, as a byte offset into the text.
    pub fn cursor(&self) -> (cursor: usize)
        requires
            self.wf(),
        ensures
            cursor == byte_at_char(self@.text, self@.cursor),
    {
        proof { self.lemma_wf(); }
        byte_offset(self.chars.as_slice(), self.cursor)
    }

    /// The selected range (start, end) as byte offsets; empty when nothing is selected.
    pub fn selection(&self) -> (range: (usize, usize))
        requires
            self.wf(),
        ensures
            (range.0 as int, range.1 as int)
                == (byte_at_char(self@.text, selection_of(self@).0), byte_at_char(self@.text, selection_of(self@).1)),
    {
        proof { self.lemma_wf(); }
        let (start, end) = self.span();
        (byte_offset(self.chars.as_slice(), start), byte_offset(self.chars.as_slice(), end))
    }

    /// The selected range (start, end) as character positions; empty when nothing is selected.
    pub fn span(&self) -> (range: (usize, usize))
        ensures
            (range.0 as int, range.1 as int) == selection_of(self@),
    {
        if self.cursor < self.anchor { (self.cursor, self.anchor) } else { (self.anchor, self.cursor) }
    }

    pub fn selected_text(&self) -> (text: String)
        requires
            self.wf(),
        ensures
            text@ == self@.text.subrange(selection_of(self@).0, selection_of(self@).1),
    {
        let (start, end) = self.span();
        let part = slice_chars(self.chars.as_slice(), start, end);
        string_of(part.as_slice())
    }

    /// Replaces the whole content with `text` (cut to fit), the caret at its end.
    pub fn set(&mut self, text: &[char])
        ensures
            final(self).wf(),
            final(self)@ == (FieldView { text: fit(text@, N as nat), cursor: fit(text@, N as nat).len() as int, anchor: fit(text@, N as nat).len() as int }),
    {
        proof {
            lemma_fit(text@, N as nat);
            lemma_bytes_bound_len(fit(text@, N as nat));
        }
        self.chars = fit_chars(text, N);
        self.cursor = self.chars.len();
        self.anchor = self.chars.len();
    }

    /// Puts back a state the box had: its text, caret and anchor.
    pub fn load(&mut self, text: &[char], cursor: usize, anchor: usize)
        requires
            field_wf(FieldView { text: text@, cursor: cursor as int, anchor: anchor as int }, N as nat),
        ensures
            final(self).wf(),
            final(self)@ == (FieldView { text: text@, cursor: cursor as int, anchor: anchor as int }),
    {
        proof { lemma_bytes_bound_len(text@); }
        self.chars = slice_chars(text, 0, text.len());
        assert(self.chars@ =~= text@);
        self.cursor = cursor;
        self.anchor = anchor;
    }

    /// Removes `start..end`; the caret lands at `start`.
    fn remove(&mut self, start: usize, end: usize)
        requires
            old(self).wf(),
            start <= end <= old(self)@.text.len(),
        ensures
            final(self).wf(),
            final(self)@ == removed(old(self)@, start as int, end as int),
    {
        proof {
            lemma_removed_fits(self@, start as int, end as int, N as nat);
        }
        let mut kept = slice_chars(self.chars.as_slice(), 0, start);
        let mut i: usize = end;
        let ghost text = self.chars@;
        while i < self.chars.len()
            invariant
                end <= i <= text.len(),
                text == self.chars@,
                kept@ == text.take(start as int) + text.subrange(end as int, i as int),
            decreases text.len() - i,
        {
            kept.push(self.chars[i]);
            assert(kept@ =~= text.take(start as int) + text.subrange(end as int, i + 1));
            i = i + 1;
        }
        assert(kept@ =~= text.take(start as int) + text.skip(end as int));
        self.chars = kept;
        self.cursor = start;
        self.anchor = start;
    }

    fn remove_selection(&mut self) -> (removed_some: bool)
        requires
            old(self).wf(),
        ensures
            final(self).wf(),
            removed_some == has_selection(old(self)@),
            final(self)@ == without_selection(old(self)@),
    {
        let (start, end) = self.span();
        if start == end {
            return false;
        }
        self.remove(start, end);
        true
    }

    /// Types `c` at the caret, over the selection if there is one.
    pub fn push(&mut self, c: char)
        requires
            old(self).wf(),
        ensures
            final(self).wf(),
            final(self)@ == typed(old(self)@, seq![c], N as nat),
    {
        let one = vec![c];
        assert(one@ =~= seq![c]);
        self.insert_chars(one.as_slice());
    }

    /// Types the characters of `s` one at a time at the caret; each one that does not fit is left out.
    pub fn push_str(&mut self, s: &str)
        requires
            old(self).wf(),
        ensures
            final(self).wf(),
            final(self)@ == pushed(old(self)@, s@, N as nat),
    {
        let chars = crate::text::chars_of(s);
        let mut i: usize = 0;
        assert(chars@.skip(0) =~= chars@);
        while i < chars.len()
            invariant
                0 <= i <= chars@.len(),
                chars@ == s@,
                self.wf(),
                pushed(self@, chars@.skip(i as int), N as nat) == pushed(old(self)@, s@, N as nat),
            decreases chars@.len() - i,
        {
            assert(chars@.skip(i as int).drop_first() =~= chars@.skip(i + 1));
            self.push(chars[i]);
            i = i + 1;
        }
    }

    /// Types `s` at the caret, over the selection if there is one.
    pub fn insert_chars(&mut self, s: &[char])
        requires
            old(self).wf(),
        ensures
            final(self).wf(),
            final(self)@ == typed(old(self)@, s@, N as nat),
    {
        self.remove_selection();
        let ghost g = self@;
        proof {
            lemma_bytes_bound_len(self.chars@);
        }
        let have = bytes_of(self.chars.as_slice());
        let room: usize = N - have;
        // What does not fit is not counted in full: stop at the first character past the room.
        let mut adding: usize = 0;
        let mut k: usize = 0;
        let mut fits = true;
        while k < s.len() && fits
            invariant
                0 <= k <= s@.len(),
                adding == byte_len(s@.take(k as int)),
                adding <= room,
                !fits ==> k < s@.len() && byte_len(s@.take(k + 1)) > room,
            decreases s@.len() - k + (if fits { 1int } else { 0int }),
        {
            assert(s@.take(k + 1).drop_last() =~= s@.take(k as int));
            let width = char_len(s[k]);
            if width > room - adding {
                fits = false;
            } else {
                adding = adding + width;
                k = k + 1;
            }
        }
        proof {
            if !fits {
                lemma_byte_len_prefix(s@, k + 1);
            } else {
                assert(s@.take(k as int) =~= s@);
            }
        }
        if fits {
            let mut text = slice_chars(self.chars.as_slice(), 0, self.cursor);
            let mut i: usize = 0;
            while i < s.len()
                invariant
                    0 <= i <= s@.len(),
                    text@ == g.text.take(g.cursor) + s@.take(i as int),
                decreases s@.len() - i,
            {
                text.push(s[i]);
                assert(text@ =~= g.text.take(g.cursor) + s@.take(i + 1));
                i = i + 1;
            }
            assert(s@.take(s@.len() as int) =~= s@);
            let mut j: usize = self.cursor;
            while j < self.chars.len()
                invariant
                    0 <= g.cursor <= j <= g.text.len(),
                    g.text == self.chars@,
                    text@ == g.text.take(g.cursor) + s@ + g.text.subrange(g.cursor, j as int),
                decreases g.text.len() - j,
            {
                text.push(self.chars[j]);
                assert(text@ =~= g.text.take(g.cursor) + s@ + g.text.subrange(g.cursor, j + 1));
                j = j + 1;
            }
            assert(s@.take(s@.len() as int) =~= s@);
            assert(text@ =~= g.text.take(g.cursor) + s@ + g.text.skip(g.cursor));
            proof {
                lemma_byte_len_concat(g.text.take(g.cursor), s@);
                lemma_byte_len_concat(g.text.take(g.cursor) + s@, g.text.skip(g.cursor));
                lemma_byte_len_concat(g.text.take(g.cursor), g.text.skip(g.cursor));
                assert(g.text.take(g.cursor) + g.text.skip(g.cursor) =~= g.text);
                lemma_bytes_bound_len(text@);
            }
            self.cursor = self.cursor + s.len();
            self.anchor = self.cursor;
            self.chars = text;
        }
    }

    /// Backspace: the selection, else the character before the caret.
    pub fn pop(&mut self)
        requires
            old(self).wf(),
        ensures
            final(self).wf(),
            final(self)@ == popped(old(self)@),
    {
        if !self.remove_selection() && self.cursor > 0 {
            self.remove(self.cursor - 1, self.cursor);
        }
    }

    pub fn delete_forward(&mut self)
        requires
            old(self).wf(),
        ensures
            final(self).wf(),
            final(self)@ == deleted_forward(old(self)@),
    {
        if !self.remove_selection() && self.cursor < self.chars.len() {
            self.remove(self.cursor, self.cursor + 1);
        }
    }

    /// Start of the word before `at`: skips spaces and punctuation, then the word itself.
    pub fn word_before(&self, at: usize) -> (start: usize)
        requires
            self.wf(),
            at <= self@.text.len(),
        ensures
            start as int == word_before(self@.text, at as int),
    {
        let text = self.chars.as_slice();
        let mut gap = at;
        while gap > 0 && !word_char(text[gap - 1])
            invariant
                0 <= gap <= at <= text@.len(),
                trailing_word(text@.take(at as int), false) == (at - gap) + trailing_word(text@.take(gap as int), false),
            decreases gap,
        {
            assert(text@.take(gap as int).drop_last() =~= text@.take(gap - 1));
            gap = gap - 1;
        }
        assert(trailing_word(text@.take(gap as int), false) == 0);
        let mut start = gap;
        while start > 0 && word_char(text[start - 1])
            invariant
                0 <= start <= gap <= text@.len(),
                trailing_word(text@.take(gap as int), true) == (gap - start) + trailing_word(text@.take(start as int), true),
            decreases start,
        {
            assert(text@.take(start as int).drop_last() =~= text@.take(start - 1));
            start = start - 1;
        }
        start
    }

    /// End of the word after `at`.
    pub fn word_after(&self, at: usize) -> (end: usize)
        requires
            self.wf(),
            at <= self@.text.len(),
        ensures
            end as int == word_after(self@.text, at as int),
    {
        let text = self.chars.as_slice();
        let mut gap = at;
        while gap < text.len() && !word_char(text[gap])
            invariant
                at <= gap <= text@.len(),
                leading_word(text@.skip(at as int), false) == (gap - at) + leading_word(text@.skip(gap as int), false),
            decreases text@.len() - gap,
        {
            assert(text@.skip(gap as int).drop_first() =~= text@.skip(gap + 1));
            gap = gap + 1;
        }
        let mut end = gap;
        while end < text.len() && word_char(text[end])
            invariant
                gap <= end <= text@.len(),
                leading_word(text@.skip(gap as int), true) == (end - gap) + leading_word(text@.skip(end as int), true),
            decreases text@.len() - end,
        {
            assert(text@.skip(end as int).drop_first() =~= text@.skip(end + 1));
            end = end + 1;
        }
        end
    }

    pub fn delete_word_back(&mut self)
        requires
            old(self).wf(),
        ensures
            final(self).wf(),
            final(self)@ == deleted_word_back(old(self)@),
    {
        if !self.remove_selection() {
            let start = self.word_before(self.cursor);
            proof { lemma_word_bounds(self@.text, self@.cursor); }
            self.remove(start, self.cursor);
        }
    }

    pub fn delete_word_forward(&mut self)
        requires
            old(self).wf(),
        ensures
            final(self).wf(),
            final(self)@ == deleted_word_forward(old(self)@),
    {
        if !self.remove_selection() {
            let end = self.word_after(self.cursor);
            proof { lemma_word_bounds(self@.text, self@.cursor); }
            self.remove(self.cursor, end);
        }
    }

    pub fn delete_to_start(&mut self)
        requires
            old(self).wf(),
        ensures
            final(self).wf(),
            final(self)@ == deleted_to_start(old(self)@),
    {
        if !self.remove_selection() {
            self.remove(0, self.cursor);
        }
    }

    pub fn delete_to_end(&mut self)
        requires
            old(self).wf(),
        ensures
            final(self).wf(),
            final(self)@ == deleted_to_end(old(self)@),
    {
        if !self.remove_selection() {
            self.remove(self.cursor, self.chars.len());
        }
    }

    /// Moves the caret to character position `at`; with `extend` the anchor stays and the selection grows, else it collapses.
    pub fn move_caret(&mut self, at: usize, extend: bool)
        requires
            old(self).wf(),
        ensures
            final(self).wf(),
            final(self)@ == moved(old(self)@, at as int, extend),
    {
        self.cursor = if at < self.chars.len() { at } else { self.chars.len() };
        if !extend {
            self.anchor = self.cursor;
        }
    }

    /// Moves the caret to byte offset `at` (the end when it lies past it); with `extend` the anchor
    /// stays and the selection grows, else it collapses.
    pub fn move_to(&mut self, at: usize, extend: bool)
        requires
            old(self).wf(),
        ensures
            final(self).wf(),
            final(self)@ == moved(old(self)@, char_at_byte(old(self)@.text, at as int), extend),
    {
        proof { self.lemma_wf(); }
        let k = char_offset(self.chars.as_slice(), at);
        self.move_caret(k, extend);
    }

    /// Selects the run of like characters around `at`: a word, a stretch of spaces, or of punctuation.
    pub fn select_word(&mut self, at: usize)
        requires
            old(self).wf(),
        ensures
            final(self).wf(),
            final(self)@ == word_selected(old(self)@, at as int),
    {
        let len = self.chars.len();
        if len == 0 {
            return;
        }
        let at = if at < len { at } else { len };
        let reference = if at < len { self.chars[at] } else { self.chars[at - 1] };
        let kind = class_of(reference);
        let text = self.chars.as_slice();
        let mut start = at;
        while start > 0 && class_of(text[start - 1]) == kind
            invariant
                0 <= start <= at <= text@.len(),
                trailing_class(text@.take(at as int), kind as int) == (at - start) + trailing_class(text@.take(start as int), kind as int),
            decreases start,
        {
            assert(text@.take(start as int).drop_last() =~= text@.take(start - 1));
            start = start - 1;
        }
        let mut end = at;
        while end < len && class_of(text[end]) == kind
            invariant
                at <= end <= len,
                len == text@.len(),
                leading_class(text@.skip(at as int), kind as int) == (end - at) + leading_class(text@.skip(end as int), kind as int),
            decreases len - end,
        {
            assert(text@.skip(end as int).drop_first() =~= text@.skip(end + 1));
            end = end + 1;
        }
        self.anchor = start;
        self.cursor = end;
    }

    pub fn select_all(&mut self)
        requires
            old(self).wf(),
        ensures
            final(self).wf(),
            final(self)@ == (FieldView { text: old(self)@.text, cursor: old(self)@.text.len() as int, anchor: 0 }),
    {
        self.anchor = 0;
        self.cursor = self.chars.len();
    }

    pub fn clear(&mut self)
        ensures
            final(self).wf(),
            final(self)@ == (FieldView { text: Seq::empty(), cursor: 0, anchor: 0 }),
    {
        self.chars = Vec::new();
        self.cursor = 0;
        self.anchor = 0;
        assert(self@.text =~= Seq::<char>::empty());
    }
}

/// Every character takes at least a byte: a text of at most `n` bytes has at most `n` characters.
pub proof fn lemma_bytes_bound_len(s: Seq<char>)
    ensures
        s.len() <= byte_len(s),
    decreases s.len(),
{
    if s.len() > 0 {
        lemma_bytes_bound_len(s.drop_last());
    }
}

pub proof fn lemma_word_bounds(text: Seq<char>, at: int)
    requires
        0 <= at <= text.len(),
    ensures
        0 <= word_before(text, at) <= at,
        at <= word_after(text, at) <= text.len(),
{
    lemma_trailing_bound(text.take(at), false, 0);
    let gap = at - trailing_word(text.take(at), false);
    lemma_trailing_bound(text.take(gap), true, 0);
    lemma_trailing_bound(text.skip(at), false, 0);
    let after = at + leading_word(text.skip(at), false);
    lemma_trailing_bound(text.skip(after), true, 0);
}

} // verus!
