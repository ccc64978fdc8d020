//! The text boxes at work: editing keys, undo and redo of the message box, the clipboard, the find
//! bar of the open conversation, and what each key press does.

use vstd::prelude::*;
use crate::text::byte_at_char;
use crate::chat::{Chat, sent};
use crate::chat_forward::top_of;
use crate::chat_lists::{visible_updated, clamped, overflow};
use crate::chat_messages::{layout_of, viewport_of, lemma_placed_rows, id_position};
use crate::chat_dialogs::send_line;
use crate::chat_media::command_line;
use crate::chat_flow::{kept_messages, fresh};
use crate::link::clock_text;
use crate::dates::day_of_seconds;
use crate::field::{Field, FieldView, field_wf, selection_of, moved, word_before, word_after, popped, deleted_forward, deleted_word_back,
    deleted_word_forward, deleted_to_start, deleted_to_end, typed, lemma_word_bounds};
use crate::font::div_toward_zero;
use crate::items::{Message, Focus, Tab, CallPhase, Delivery, MESSAGE_CAPACITY, first_match};
use crate::screen::{Snap, snap_wf, History, Change, Finder, Scroll, Boxes, Screen, Clipboard, UNDO_DEPTH, empty_field};
use crate::text::{byte_len, slice_chars, fit, chars_of};

verus! {

/// A change to a text box: a caret movement (by character or word, extending the selection or
/// not), selecting everything, or a deletion.
#[derive(Clone, Copy, PartialEq, Eq, Structural, Debug)]
pub enum Edit {
    Left { word: bool, extend: bool },
    Right { word: bool, extend: bool },
    Home { extend: bool },
    End { extend: bool },
    SelectAll,
    DeleteForward,
    DeleteWordBack,
    DeleteWordForward,
    DeleteToStart,
    DeleteToEnd,
    Backspace,
}

/// Whether `edit` only moves the caret or the selection.
pub open spec fn moves_only(edit: Edit) -> bool {
    edit is Left || edit is Right || edit is Home || edit is End || edit is SelectAll
}

/// A box after `edit`. Left and Right first collapse a selection to its edge, unless they extend it.
pub open spec fn edited(f: FieldView, edit: Edit) -> FieldView {
    let (start, end) = selection_of(f);
    match edit {
        Edit::Left { word, extend } => moved(f, if !extend && start != end { start } else if word { word_before(f.text, f.cursor) }
            else if f.cursor > 0 { f.cursor - 1 } else { 0 }, extend),
        Edit::Right { word, extend } => moved(f, if !extend && start != end { end } else if word { word_after(f.text, f.cursor) }
            else if f.cursor < f.text.len() { f.cursor + 1 } else { f.text.len() as int }, extend),
        Edit::Home { extend } => moved(f, 0, extend),
        Edit::End { extend } => moved(f, f.text.len() as int, extend),
        Edit::SelectAll => FieldView { text: f.text, cursor: f.text.len() as int, anchor: 0 },
        Edit::DeleteForward => deleted_forward(f),
        Edit::DeleteWordBack => deleted_word_back(f),
        Edit::DeleteWordForward => deleted_word_forward(f),
        Edit::DeleteToStart => deleted_to_start(f),
        Edit::DeleteToEnd => deleted_to_end(f),
        Edit::Backspace => popped(f),
    }
}

/// Applies `edit` to `field`.
pub fn apply_edit<const N: usize>(field: &mut Field<N>, edit: Edit)
    requires
        old(field).wf(),
    ensures
        final(field).wf(),
        final(field)@ == edited(old(field)@, edit),
{
    proof { field.lemma_wf(); }
    let (start, end) = field.span();
    let cursor = field.caret();
    let len = field.len();
    match edit {
        Edit::Left { word, extend } => {
            let to = if !extend && start != end { start } else if word { field.word_before(cursor) } else if cursor > 0 { cursor - 1 } else { 0 };
            field.move_caret(to, extend);
        },
        Edit::Right { word, extend } => {
            let to = if !extend && start != end { end } else if word { field.word_after(cursor) } else if cursor < len { cursor + 1 } else { len };
            field.move_caret(to, extend);
        },
        Edit::Home { extend } => field.move_caret(0, extend),
        Edit::End { extend } => field.move_caret(len, extend),
        Edit::SelectAll => field.select_all(),
        Edit::DeleteForward => field.delete_forward(),
        Edit::DeleteWordBack => field.delete_word_back(),
        Edit::DeleteWordForward => field.delete_word_forward(),
        Edit::DeleteToStart => field.delete_to_start(),
        Edit::DeleteToEnd => field.delete_to_end(),
        Edit::Backspace => field.pop(),
    }
}

// ---- undo

/// The state a snapshot holds, as a box.
pub open spec fn snap_view(s: Snap) -> FieldView {
    FieldView { text: s.text@, cursor: s.cursor as int, anchor: s.anchor as int }
}

pub open spec fn views(snaps: Seq<Snap>) -> Seq<FieldView> {
    snaps.map_values(|s: Snap| snap_view(s))
}

/// The undo history as plain values: the states Ctrl+Z goes back to (oldest first), those it undid,
/// and what the last edit was.
pub open spec fn history_view(h: History) -> (Seq<FieldView>, Seq<FieldView>, Change) {
    (views(h.undo@), views(h.redo@), h.last_change)
}

/// The history after noting the box `draft` before an edit: letters typed in a row make one step;
/// the oldest step goes when there are `UNDO_DEPTH`; what was undone can no longer be redone.
pub open spec fn remembered(h: (Seq<FieldView>, Seq<FieldView>, Change), draft: FieldView, change: Change)
    -> (Seq<FieldView>, Seq<FieldView>, Change)
{
    if change == Change::Type && h.2 == Change::Type {
        h
    } else {
        let kept = if h.0.len() >= UNDO_DEPTH { h.0.drop_first() } else { h.0 };
        (kept.push(draft), Seq::empty(), change)
    }
}

/// `states` with `state` added at the end, the last one replaced when there are `UNDO_DEPTH`.
pub open spec fn stacked(states: Seq<FieldView>, state: FieldView) -> Seq<FieldView> {
    if states.len() < UNDO_DEPTH { states.push(state) } else { states.update(UNDO_DEPTH - 1, state) }
}

/// Ctrl+Z in the message box: back to the last noted state; the present one can be redone.
#[verifier::opaque]
pub open spec fn undone(prior: Chat, next: Chat) -> bool {
    let (undo, redo, _) = history_view(prior.history);
    if prior.screen.focus != Focus::Message || undo.len() == 0 {
        next == prior
    } else {
        &&& history_view(next.history) == (undo.drop_last(), stacked(redo, prior.boxes.draft@), Change::Other)
        &&& next.boxes.draft@ == undo.last()
        &&& next == (Chat { history: next.history, boxes: Boxes { draft: next.boxes.draft, ..prior.boxes }, ..prior })
    }
}

/// Ctrl+Shift+Z (or Ctrl+Y) in the message box: forward to the state the last undo left.
#[verifier::opaque]
pub open spec fn redone(prior: Chat, next: Chat) -> bool {
    let (undo, redo, _) = history_view(prior.history);
    if prior.screen.focus != Focus::Message || redo.len() == 0 {
        next == prior
    } else {
        &&& history_view(next.history) == (stacked(undo, prior.boxes.draft@), redo.drop_last(), Change::Other)
        &&& next.boxes.draft@ == redo.last()
        &&& next == (Chat { history: next.history, boxes: Boxes { draft: next.boxes.draft, ..prior.boxes }, ..prior })
    }
}

proof fn lemma_views_push(snaps: Seq<Snap>, s: Snap)
    ensures
        views(snaps.push(s)) == views(snaps).push(snap_view(s)),
{
    assert(views(snaps.push(s)) =~= views(snaps).push(snap_view(s)));
}

impl Chat {
    /// The message box as it is now.
    fn snap(&self) -> (s: Snap)
        requires
            self.wf(),
        ensures
            snap_view(s) == self.boxes.draft@,
            snap_wf(s),
    {
        proof { self.boxes.draft.lemma_wf(); }
        let chars = self.boxes.draft.chars();
        let text = slice_chars(chars, 0, chars.len());
        assert(text@ =~= self.boxes.draft@.text);
        Snap { text, cursor: self.boxes.draft.caret(), anchor: self.boxes.draft.anchor() }
    }

    /// Notes the message box as it is now, before an edit that Ctrl+Z should be able to take back.
    pub fn remember(&mut self, change: Change)
        requires
            old(self).wf(),
        ensures
            final(self).wf(),
            history_view(final(self).history) == remembered(history_view(old(self).history), old(self).boxes.draft@, change),
            *final(self) == (Chat { history: final(self).history, ..*old(self) }),
    {
        if change == Change::Type && self.history.last_change == Change::Type {
            return;
        }
        if self.history.undo.len() >= UNDO_DEPTH {
            self.history.undo.remove(0);
            assert(views(self.history.undo@) =~= views(old(self).history.undo@).drop_first());
        }
        let s = self.snap();
        let ghost kept = self.history.undo@;
        self.history.undo.push(s);
        proof { lemma_views_push(kept, s); }
        self.history.redo = Vec::new();
        self.history.last_change = change;
        assert(views(self.history.redo@) =~= Seq::<FieldView>::empty());
        proof {
            assert forall|i: int| 0 <= i < self.history.undo@.len() implies snap_wf(#[trigger] self.history.undo@[i]) by {
                if i < kept.len() {
                    assert(kept[i] == old(self).history.undo@[if old(self).history.undo@.len() >= UNDO_DEPTH { i + 1 } else { i }]);
                }
            }
        }
    }

    /// Ctrl+Z in the message box: back to the last noted state; the present one can be redone.
    pub fn undo(&mut self)
        requires
            old(self).wf(),
        ensures
            final(self).wf(),
            undone(*old(self), *final(self)),
    {
        proof { reveal(undone); }
        if self.screen.focus != Focus::Message || self.history.undo.len() == 0 {
            return;
        }
        let s = self.snap();
        let state = self.history.undo.pop().unwrap();
        assert(views(self.history.undo@) =~= views(old(self).history.undo@).drop_last());
        assert(snap_wf(old(self).history.undo@.last()));
        if self.history.redo.len() < UNDO_DEPTH {
            let ghost r = self.history.redo@;
            self.history.redo.push(s);
            proof { lemma_views_push(r, s); }
        } else {
            self.history.redo.set(UNDO_DEPTH - 1, s);
            assert(views(self.history.redo@) =~= views(old(self).history.redo@).update(UNDO_DEPTH - 1, snap_view(s)));
        }
        self.boxes.draft.load(state.text.as_slice(), state.cursor, state.anchor);
        self.history.last_change = Change::Other;
        proof {
            assert forall|i: int| 0 <= i < self.history.redo@.len() implies snap_wf(#[trigger] self.history.redo@[i]) by {
                if i < old(self).history.redo@.len() && self.history.redo@[i] != s {
                    assert(snap_wf(old(self).history.redo@[i]));
                }
            }
            assert forall|i: int| 0 <= i < self.history.undo@.len() implies snap_wf(#[trigger] self.history.undo@[i]) by {
                assert(snap_wf(old(self).history.undo@[i]));
            }
        }
    }

    /// Ctrl+Shift+Z (or Ctrl+Y) in the message box: forward to the state the last undo left.
    pub fn redo(&mut self)
        requires
            old(self).wf(),
        ensures
            final(self).wf(),
            redone(*old(self), *final(self)),
    {
        proof { reveal(redone); }
        if self.screen.focus != Focus::Message || self.history.redo.len() == 0 {
            return;
        }
        let s = self.snap();
        let state = self.history.redo.pop().unwrap();
        assert(views(self.history.redo@) =~= views(old(self).history.redo@).drop_last());
        assert(snap_wf(old(self).history.redo@.last()));
        if self.history.undo.len() < UNDO_DEPTH {
            let ghost u = self.history.undo@;
            self.history.undo.push(s);
            proof { lemma_views_push(u, s); }
        } else {
            self.history.undo.set(UNDO_DEPTH - 1, s);
            assert(views(self.history.undo@) =~= views(old(self).history.undo@).update(UNDO_DEPTH - 1, snap_view(s)));
        }
        self.boxes.draft.load(state.text.as_slice(), state.cursor, state.anchor);
        self.history.last_change = Change::Other;
        proof {
            assert forall|i: int| 0 <= i < self.history.undo@.len() implies snap_wf(#[trigger] self.history.undo@[i]) by {
                if i < old(self).history.undo@.len() && self.history.undo@[i] != s {
                    assert(snap_wf(old(self).history.undo@[i]));
                }
            }
            assert forall|i: int| 0 <= i < self.history.redo@.len() implies snap_wf(#[trigger] self.history.redo@[i]) by {
                assert(snap_wf(old(self).history.redo@[i]));
            }
        }
    }
}


// ---- the find bar

/// What the find bar looks for; nothing while it is closed.
pub open spec fn query_of(chat: Chat) -> Seq<char> {
    if chat.finder.open { chat.finder.field@.text } else { Seq::empty() }
}

/// Whether `m` is a message of conversation `selected` whose text has `query`.
pub open spec fn find_hit(m: Message, selected: int, query: Seq<char>) -> bool {
    m.chat as int == selected && first_match(m.text@, query, 0) is Some
}

/// The numbers of the messages of `selected` that have `query`, oldest first.
pub open spec fn hits(messages: Seq<Message>, selected: int, query: Seq<char>) -> Seq<int>
    decreases messages.len(),
{
    if messages.len() == 0 {
        Seq::empty()
    } else {
        let before = hits(messages.drop_last(), selected, query);
        if find_hit(messages.last(), selected, query) { before.push(messages.len() - 1) } else { before }
    }
}

pub open spec fn chat_hits(chat: Chat) -> Seq<int> {
    hits(chat.store.messages@, chat.screen.selected as int, query_of(chat))
}

/// Which match is current (0 based, oldest first), if there are any.
pub open spec fn found_position(chat: Chat) -> Option<int> {
    let count = chat_hits(chat).len();
    if count > 0 { Some(if chat.finder.current < count - 1 { chat.finder.current as int } else { count - 1 }) } else { None }
}

/// The view brought to the current match: its bubble a third of the way down, as far as the
/// conversation scrolls.
pub open spec fn find_jumped(prior: Chat, next: Chat) -> bool {
    match found_position(prior) {
        None => next == prior,
        Some(p) => match top_of(layout_of(&prior).0, chat_hits(prior)[p], 0) {
            None => next == prior,
            Some(y) => next == (Chat { scroll: Scroll { conversation: clamped(y - div_toward_zero(viewport_of(&prior), 3), 0,
                overflow(layout_of(&prior).1, viewport_of(&prior))) as i32, ..prior.scroll }, ..prior }),
        },
    }
}

/// What the find bar does when what it looks for changed: the newest match becomes current and shows.
pub open spec fn find_refreshed(prior: Chat, next: Chat) -> bool {
    let count = chat_hits(prior).len();
    find_jumped(Chat { finder: Finder { current: (if count > 0 { count - 1 } else { 0 }) as usize, ..prior.finder }, ..prior }, next)
}

/// The find bar opens on the open conversation, empty, with the caret in it.
#[verifier::opaque]
pub open spec fn find_opened(prior: Chat, next: Chat) -> bool {
    if !prior.screen.open || prior.screen.tab != Tab::Chats {
        next == prior
    } else {
        &&& next.finder.field@ == empty_field()
        &&& next == (Chat { finder: Finder { open: true, current: 0, field: next.finder.field },
            screen: Screen { focus: Focus::Find, ..prior.screen }, marks: crate::screen::Marks { picker_open: false, ..prior.marks }, ..prior })
    }
}

/// The next (`forward`, newer) or previous (older) match becomes current, wrapping around, and shows.
#[verifier::opaque]
pub open spec fn find_stepped(prior: Chat, next: Chat, forward: bool) -> bool {
    let count = chat_hits(prior).len() as int;
    if count == 0 {
        next == prior
    } else {
        let current = if prior.finder.current < count - 1 { prior.finder.current as int } else { count - 1 };
        let wanted = if forward { (current + 1) % count } else { (current + count - 1) % count };
        find_jumped(Chat { finder: Finder { current: wanted as usize, ..prior.finder }, ..prior }, next)
    }
}

proof fn lemma_hits_step(messages: Seq<Message>, selected: int, query: Seq<char>, i: int)
    requires
        0 <= i < messages.len(),
    ensures
        hits(messages.take(i + 1), selected, query) == if find_hit(messages[i], selected, query) {
            hits(messages.take(i), selected, query).push(i) } else { hits(messages.take(i), selected, query) },
{
    assert(messages.take(i + 1).drop_last() =~= messages.take(i));
}

proof fn lemma_hits_prefix(messages: Seq<Message>, selected: int, query: Seq<char>, i: int)
    requires
        0 <= i <= messages.len(),
    ensures
        hits(messages.take(i), selected, query).len() <= hits(messages, selected, query).len(),
        forall|j: int| 0 <= j < hits(messages.take(i), selected, query).len()
            ==> #[trigger] hits(messages.take(i), selected, query)[j] == hits(messages, selected, query)[j],
    decreases messages.len() - i,
{
    if i == messages.len() {
        assert(messages.take(i) =~= messages);
    } else {
        lemma_hits_step(messages, selected, query, i);
        lemma_hits_prefix(messages, selected, query, i + 1);
        let shorter = hits(messages.take(i), selected, query);
        let longer = hits(messages.take(i + 1), selected, query);
        assert forall|j: int| 0 <= j < shorter.len() implies #[trigger] shorter[j] == hits(messages, selected, query)[j] by {
            assert(shorter[j] == longer[j]);
        }
    }
}

proof fn lemma_hits_bounds(messages: Seq<Message>, selected: int, query: Seq<char>)
    ensures
        forall|j: int| 0 <= j < hits(messages, selected, query).len() ==> 0 <= #[trigger] hits(messages, selected, query)[j] < messages.len(),
        hits(messages, selected, query).len() <= messages.len(),
    decreases messages.len(),
{
    if messages.len() > 0 {
        lemma_hits_bounds(messages.drop_last(), selected, query);
    }
}

/// The find bar closed.
pub open spec fn find_closed(prior: Chat, next: Chat) -> bool {
    &&& next == (Chat { finder: Finder { open: false, ..prior.finder }, screen: Screen { focus: Focus::Message, ..prior.screen },
        ..prior })
}

impl Chat {
    /// What the find bar looks for; empty while the bar is closed.
    pub fn find_query(&self) -> (query: String)
        ensures
            query@ == query_of(*self),
    {
        if self.finder.open { self.finder.field.text() } else { String::new() }
    }

    /// The caret of the find bar's box and its selection, as byte offsets.
    pub fn find_caret(&self) -> (caret: (usize, (usize, usize)))
        requires
            self.wf(),
        ensures
            caret.0 == byte_at_char(self.finder.field@.text, self.finder.field@.cursor),
            (caret.1.0 as int, caret.1.1 as int) == (byte_at_char(self.finder.field@.text, selection_of(self.finder.field@).0),
                byte_at_char(self.finder.field@.text, selection_of(self.finder.field@).1)),
    {
        (self.finder.field.cursor(), self.finder.field.selection())
    }

    /// The text in the find bar's box (also while it is closed).
    pub fn find_text(&self) -> (text: String)
        ensures
            text@ == self.finder.field@.text,
    {
        self.finder.field.text()
    }

    /// Whether `message` contains what the find bar looks for.
    pub fn is_find_match(&self, message: &Message) -> (hit: bool)
        ensures
            hit == (first_match(message.text@, query_of(*self), 0) is Some),
    {
        let query = self.find_query();
        let text = chars_of(message.text.as_str());
        crate::items::match_from(text.as_slice(), query.as_str(), 0).is_some()
    }

    /// How many messages of the open conversation match.
    pub fn find_count(&self) -> (count: usize)
        ensures
            count == chat_hits(*self).len(),
    {
        let messages = &self.store.messages;
        let selected = self.screen.selected;
        let mut count: usize = 0;
        let mut i: usize = 0;
        proof { lemma_hits_bounds(messages@, selected as int, query_of(*self)); }
        while i < messages.len()
            invariant
                0 <= i <= messages@.len(),
                messages@ == self.store.messages@,
                selected == self.screen.selected,
                count == hits(messages@.take(i as int), selected as int, query_of(*self)).len(),
                count <= i,
            decreases messages@.len() - i,
        {
            proof { lemma_hits_step(messages@, selected as int, query_of(*self), i as int); }
            if messages[i].chat as usize == selected && self.is_find_match(&messages[i]) {
                count = count + 1;
            }
            i = i + 1;
        }
        assert(messages@.take(messages@.len() as int) =~= messages@);
        count
    }

    /// Which match is current (0 based, oldest first), if there are any.
    pub fn find_position(&self) -> (position: Option<usize>)
        ensures
            match position {
                Some(p) => found_position(*self) == Some(p as int),
                None => found_position(*self) is None,
            },
    {
        let count = self.find_count();
        if count > 0 {
            Some(if self.finder.current < count - 1 { self.finder.current } else { count - 1 })
        } else {
            None
        }
    }

    /// The number of the `n`th match (oldest first) among all the messages.
    fn nth_hit(&self, n: usize) -> (index: usize)
        requires
            n < chat_hits(*self).len(),
        ensures
            index as int == chat_hits(*self)[n as int],
            index < self.store.messages@.len(),
    {
        let messages = &self.store.messages;
        let selected = self.screen.selected;
        let ghost query = query_of(*self);
        let mut seen: usize = 0;
        let mut i: usize = 0;
        proof { lemma_hits_bounds(messages@, selected as int, query); }
        while i < messages.len()
            invariant
                0 <= i <= messages@.len(),
                messages@ == self.store.messages@,
                selected == self.screen.selected,
                query == query_of(*self),
                n < hits(messages@, selected as int, query).len(),
                seen == hits(messages@.take(i as int), selected as int, query).len(),
                seen <= n,
            decreases messages@.len() - i,
        {
            proof { lemma_hits_step(messages@, selected as int, query, i as int); }
            if messages[i].chat as usize == selected && self.is_find_match(&messages[i]) {
                if seen == n {
                    proof {
                        lemma_hits_prefix(messages@, selected as int, query, i + 1);
                        assert(hits(messages@.take(i + 1), selected as int, query)[n as int] == i);
                    }
                    return i;
                }
                seen = seen + 1;
            }
            i = i + 1;
        }
        proof {
            assert(messages@.take(messages@.len() as int) =~= messages@);
        }
        0
    }

    /// Whether message `index` is the current match.
    pub fn is_current_find(&self, index: usize) -> (current: bool)
        ensures
            current == (found_position(*self) matches Some(p) && chat_hits(*self)[p] == index as int),
    {
        match self.find_position() {
            Some(p) => self.nth_hit(p) == index,
            None => false,
        }
    }

    /// The top edge of the bubble of message `index` in the open conversation, if it shows there.
    pub fn bubble_top(&self, index: usize) -> (top: Option<i32>)
        requires
            self.wf(),
        ensures
            match top {
                Some(y) => top_of(layout_of(self).0, index as int, 0) == Some(y as int),
                None => top_of(layout_of(self).0, index as int, 0) is None,
            },
    {
        let (rows, _) = self.place();
        let ghost layout = layout_of(self).0;
        let mut k: usize = 0;
        while k < rows.len()
            invariant
                0 <= k <= rows@.len(),
                rows@.len() == layout.len(),
                layout == layout_of(self).0,
                forall|j: int| 0 <= j < rows@.len() ==> ((#[trigger] rows@[j]).0 as int, rows@[j].1 as int, rows@[j].2) == layout[j],
                top_of(layout, index as int, 0) == top_of(layout, index as int, k as int),
            decreases rows@.len() - k,
        {
            let (at, y, _) = rows[k];
            assert(layout[k as int] == (at as int, y as int, rows@[k as int].2));
            if at == index {
                return Some(y);
            }
            k = k + 1;
        }
        None
    }

    /// Scrolls the conversation so that a bubble with its top edge at `y` comes a third of the way down.
    fn view_at(&mut self, y: i32)
        requires
            old(self).wf(),
        ensures
            final(self).wf(),
            *final(self) == (Chat { scroll: Scroll { conversation: clamped(y - div_toward_zero(viewport_of(old(self)), 3), 0,
                overflow(layout_of(old(self)).1, viewport_of(old(self)))) as i32, ..old(self).scroll }, ..*old(self) }),
    {
        let view: i64 = self.viewport_height() as i64;
        let third: i64 = if view >= 0 { view / 3 } else { -((-view) / 3) };
        let max = self.max_conversation_scroll();
        let wanted: i64 = (y as i64) - third;
        self.scroll.conversation = if wanted < 0 { 0 } else if wanted > max as i64 { max } else { wanted as i32 };
    }

    /// Scrolls the conversation so the current match is in view.
    fn find_jump(&mut self)
        requires
            old(self).wf(),
        ensures
            final(self).wf(),
            find_jumped(*old(self), *final(self)),
    {
        let position = match self.find_position() {
            Some(p) => p,
            None => return,
        };
        let target = self.nth_hit(position);
        match self.bubble_top(target) {
            Some(y) => self.view_at(y),
            None => {},
        }
    }

    /// The query changed: the newest match becomes current and shows.
    fn find_changed(&mut self)
        requires
            old(self).wf(),
        ensures
            final(self).wf(),
            find_refreshed(*old(self), *final(self)),
    {
        let count = self.find_count();
        self.finder.current = if count > 0 { count - 1 } else { 0 };
        self.find_jump();
    }

    /// Opens the find bar of the open conversation, empty, with the caret in it.
    pub fn open_find(&mut self)
        requires
            old(self).wf(),
        ensures
            final(self).wf(),
            find_opened(*old(self), *final(self)),
    {
        proof { reveal(find_opened); }
        if !self.screen.open || self.screen.tab != Tab::Chats {
            return;
        }
        self.finder.open = true;
        self.finder.field.clear();
        self.finder.current = 0;
        self.screen.focus = Focus::Find;
        self.marks.picker_open = false;
    }

    pub fn close_find(&mut self)
        ensures
            find_closed(*old(self), *final(self)),
    {
        self.finder.open = false;
        self.screen.focus = Focus::Message;
    }

    /// Moves to the next (`forward`, newer) or previous (older) match, wrapping around, and shows it.
    pub fn find_step(&mut self, forward: bool)
        requires
            old(self).wf(),
        ensures
            final(self).wf(),
            find_stepped(*old(self), *final(self), forward),
    {
        proof { reveal(find_stepped); }
        let count = self.find_count();
        if count == 0 {
            return;
        }
        proof { lemma_hits_bounds(self.store.messages@, self.screen.selected as int, query_of(*self)); }
        let current = if self.finder.current < count - 1 { self.finder.current } else { count - 1 };
        self.finder.current = if forward { (current + 1) % count } else { (current + count - 1) % count };
        self.find_jump();
    }
}


// ---- typing and editing

/// What an edit does to the box that has the caret. In the message box, a change (not a mere
/// movement) of a box with text is noted for Ctrl+Z; the search box updates the list, the find
/// bar its matches.
#[verifier::opaque]
pub open spec fn edited_chat(prior: Chat, next: Chat, edit: Edit) -> bool {
    match prior.screen.focus {
        Focus::Message => {
            let h = history_view(prior.history);
            &&& history_view(next.history) == (if !moves_only(edit) && prior.boxes.draft@.text.len() > 0 {
                remembered(h, prior.boxes.draft@, Change::Other) } else { (h.0, h.1, Change::Other) })
            &&& next.boxes.draft@ == edited(prior.boxes.draft@, edit)
            &&& next == (Chat { history: next.history, boxes: Boxes { draft: next.boxes.draft, ..prior.boxes }, ..prior })
        },
        Focus::Search => {
            &&& next.boxes.search@ == edited(prior.boxes.search@, edit)
            &&& visible_updated(Chat { boxes: Boxes { search: next.boxes.search, ..prior.boxes }, ..prior }, next)
        },
        Focus::Find => {
            &&& next.finder.field@ == edited(prior.finder.field@, edit)
            &&& find_refreshed(Chat { finder: Finder { field: next.finder.field, ..prior.finder }, ..prior }, next)
        },
    }
}

/// What typing `c` does: it goes into the box that has the caret (the keypad of the calls tab
/// takes digits and `+` only). Letters typed in a row make one undo step, a space ends it.
#[verifier::opaque]
pub open spec fn inserted(prior: Chat, next: Chat, c: char) -> bool {
    if prior.call.dialpad_open && !(('0' <= c && c <= '9') || c == '+') {
        next == prior
    } else {
        match prior.screen.focus {
            Focus::Message => {
                let h = remembered(history_view(prior.history), prior.boxes.draft@, Change::Type);
                &&& history_view(next.history) == (if c == ' ' { (h.0, h.1, Change::Other) } else { h })
                &&& next.boxes.draft@ == typed(prior.boxes.draft@, seq![c], MESSAGE_CAPACITY as nat)
                &&& next == (Chat { history: next.history, boxes: Boxes { draft: next.boxes.draft, ..prior.boxes }, ..prior })
            },
            Focus::Search => {
                &&& next.boxes.search@ == typed(prior.boxes.search@, seq![c], crate::screen::SEARCH_CAPACITY as nat)
                &&& visible_updated(Chat { boxes: Boxes { search: next.boxes.search, ..prior.boxes }, ..prior }, next)
            },
            Focus::Find => {
                &&& next.finder.field@ == typed(prior.finder.field@, seq![c], crate::screen::FIND_CAPACITY as nat)
                &&& find_refreshed(Chat { finder: Finder { field: next.finder.field, ..prior.finder }, ..prior }, next)
            },
        }
    }
}

/// A dead key that waits for its letter is typed as it is.
#[verifier::opaque]
pub open spec fn accent_flushed(prior: Chat, next: Chat) -> bool {
    match prior.marks.pending_accent {
        None => next == prior,
        Some(accent) => inserted(Chat { marks: crate::screen::Marks { pending_accent: None, ..prior.marks }, ..prior }, next, accent),
    }
}

/// Whether a text box has the caret (the blink timer runs only then).
pub open spec fn is_editing(chat: Chat) -> bool {
    if chat.dialog.open || chat.call.phase != CallPhase::Idle {
        false
    } else {
        match chat.screen.focus {
            Focus::Search => true,
            Focus::Find => chat.finder.open,
            Focus::Message => chat.screen.open && chat.screen.tab == Tab::Chats && !chat.screen.new_chat,
        }
    }
}

/// The text selected in the box that has the caret.
pub open spec fn selected_of(chat: Chat) -> Seq<char> {
    let f = match chat.screen.focus {
        Focus::Message => chat.boxes.draft@,
        Focus::Search => chat.boxes.search@,
        Focus::Find => chat.finder.field@,
    };
    f.text.subrange(selection_of(f).0, selection_of(f).1)
}

/// Ctrl+C: the selected text waits to go to the clipboard; nothing selected copies nothing.
#[verifier::opaque]
pub open spec fn copied(prior: Chat, next: Chat) -> bool {
    if selected_of(prior).len() == 0 {
        next == prior
    } else {
        &&& next.clipboard.text@ == selected_of(prior)
        &&& next == (Chat { clipboard: Clipboard { text: next.clipboard.text, pending: true, ..prior.clipboard }, ..prior })
    }
}

/// What pasting takes a character as: a line break or a tab counts as a space.
pub open spec fn paste_char(c: char) -> char {
    if c == '\n' || c == '\r' || c == '\t' { ' ' } else { c }
}

/// `states` are the chat before and after each character of `s` is typed.
pub open spec fn typed_through(states: Seq<Chat>, s: Seq<char>) -> bool {
    &&& states.len() == s.len() + 1
    &&& forall|i: int| 0 <= i < s.len() ==> #[trigger] inserted(states[i], states[i + 1], paste_char(s[i]))
}

/// The characters of `s` typed one after the other.
pub open spec fn typed_in(prior: Chat, next: Chat, s: Seq<char>) -> bool {
    exists|states: Seq<Chat>| #[trigger] typed_through(states, s) && states[0] == prior && states.last() == next
}

/// A box after a click at character `index`: the caret; a second click in a row selects the word,
/// a third the whole text.
pub open spec fn clicked(f: FieldView, index: int, clicks: u8) -> FieldView {
    if clicks == 1 { moved(f, index, false) } else if clicks == 2 { crate::field::word_selected(f, index) }
    else { FieldView { text: f.text, cursor: f.text.len() as int, anchor: 0 } }
}

fn click_box<const N: usize>(field: &mut Field<N>, index: usize, clicks: u8)
    requires
        old(field).wf(),
    ensures
        final(field).wf(),
        final(field)@ == clicked(old(field)@, index as int, clicks),
{
    if clicks == 1 {
        field.move_caret(index, false);
    } else if clicks == 2 {
        field.select_word(index);
    } else {
        field.select_all();
    }
}

/// The letters Ctrl turns into an edit: select all, to the end, delete a word back, to the start,
/// to the end, the next character, the previous one.
pub open spec fn is_edit_letter(letter: char) -> bool {
    letter == 'a' || letter == 'e' || letter == 'w' || letter == 'u' || letter == 'k' || letter == 'd' || letter == 'h'
}

pub open spec fn ctrl_edit(letter: char) -> Edit {
    if letter == 'a' { Edit::SelectAll }
    else if letter == 'e' { Edit::End { extend: false } }
    else if letter == 'w' { Edit::DeleteWordBack }
    else if letter == 'u' { Edit::DeleteToStart }
    else if letter == 'k' { Edit::DeleteToEnd }
    else if letter == 'd' { Edit::DeleteForward }
    else { Edit::Backspace }
}

fn ctrl_edit_of(letter: char) -> (edit: Edit)
    ensures
        edit == ctrl_edit(letter),
{
    if letter == 'a' { Edit::SelectAll }
    else if letter == 'e' { Edit::End { extend: false } }
    else if letter == 'w' { Edit::DeleteWordBack }
    else if letter == 'u' { Edit::DeleteToStart }
    else if letter == 'k' { Edit::DeleteToEnd }
    else if letter == 'd' { Edit::DeleteForward }
    else { Edit::Backspace }
}

/// The edit a cursor or deletion key makes, with Shift (extend) and Ctrl (by word).
pub open spec fn edit_of(key: EditKey, shift: bool, ctrl: bool) -> Edit {
    match key {
        EditKey::Left => Edit::Left { word: ctrl, extend: shift },
        EditKey::Right => Edit::Right { word: ctrl, extend: shift },
        EditKey::Home => Edit::Home { extend: shift },
        EditKey::End => Edit::End { extend: shift },
        EditKey::Delete => if ctrl { Edit::DeleteWordForward } else { Edit::DeleteForward },
        EditKey::Backspace => Edit::DeleteWordBack,
    }
}

/// Ctrl and a letter: undo and redo, select all, delete by word or to either end, the clipboard,
/// and the find bar.
pub open spec fn ctrl_keyed(prior: Chat, next: Chat, letter: char, shift: bool) -> bool {
    if letter == 'z' && shift { redone(prior, next) }
    else if letter == 'z' { undone(prior, next) }
    else if letter == 'y' { redone(prior, next) }
    else if is_edit_letter(letter) { edited_chat(prior, next, ctrl_edit(letter)) }
    else if letter == 'c' { copied(prior, next) }
    else if letter == 'x' { exists|mid: Chat| #[trigger] copied(prior, mid) && edited_chat(mid, next, Edit::Backspace) }
    else if letter == 'v' { next == (Chat { clipboard: Clipboard { paste_wanted: true, ..prior.clipboard }, ..prior }) }
    else if letter == 'f' { find_opened(prior, next) }
    else { next == prior }
}

/// A cursor or deletion key.
#[derive(Clone, Copy, PartialEq, Eq, Structural, Debug)]
pub enum EditKey {
    Left,
    Right,
    Home,
    End,
    Delete,
    /// Backspace with Ctrl held (plain Backspace is `Key::Backspace`).
    Backspace,
}

/// A click at character `index` of the message box or of the search box.
pub open spec fn field_clicked(prior: Chat, next: Chat, message: bool, index: usize, clicks: u8) -> bool {
    &&& message ==> next.boxes.draft@ == clicked(prior.boxes.draft@, index as int, clicks)
        && next == (Chat { boxes: Boxes { draft: next.boxes.draft, ..prior.boxes },
            screen: Screen { caret_on: true, ..prior.screen }, ..prior })
    &&& !message ==> next.boxes.search@ == clicked(prior.boxes.search@, index as int, clicks)
        && next == (Chat { boxes: Boxes { search: next.boxes.search, ..prior.boxes },
            screen: Screen { caret_on: true, ..prior.screen }, ..prior })
}

/// A click at character `index` of the find box.
pub open spec fn find_clicked(prior: Chat, next: Chat, index: usize, clicks: u8) -> bool {
    &&& next.finder.field@ == clicked(prior.finder.field@, index as int, clicks)
    &&& next == (Chat { finder: Finder { field: next.finder.field, ..prior.finder },
        screen: Screen { focus: Focus::Find, caret_on: true, ..prior.screen }, ..prior })
}

/// Text from the clipboard typed at the caret.
pub open spec fn pasted(prior: Chat, next: Chat, text: Seq<char>) -> bool {
    &&& !is_editing(prior) ==> next == prior
    &&& is_editing(prior) ==> exists|mid: Chat| #[trigger] typed_in(prior, mid, text)
        && next == (Chat { screen: Screen { caret_on: true, ..mid.screen }, ..mid })
}

/// A drag in the message box or the search box reached character `index`: the selection runs from the anchor to there.
pub open spec fn field_dragged(prior: Chat, next: Chat, message: bool, index: usize) -> bool {
    &&& message ==> next.boxes.draft@ == moved(prior.boxes.draft@, index as int, true)
        && next == (Chat { boxes: Boxes { draft: next.boxes.draft, ..prior.boxes },
            screen: Screen { caret_on: true, ..prior.screen }, ..prior })
    &&& !message ==> next.boxes.search@ == moved(prior.boxes.search@, index as int, true)
        && next == (Chat { boxes: Boxes { search: next.boxes.search, ..prior.boxes },
            screen: Screen { caret_on: true, ..prior.screen }, ..prior })
}

/// A drag in the find box reached character `index`: the selection runs from the anchor to there.
pub open spec fn find_dragged(prior: Chat, next: Chat, index: usize) -> bool {
    &&& next.finder.field@ == moved(prior.finder.field@, index as int, true)
    &&& next == (Chat { finder: Finder { field: next.finder.field, ..prior.finder },
        screen: Screen { caret_on: true, ..prior.screen }, ..prior })
}

impl Chat {
    /// Applies `edit` to the box that has the caret.
    #[verifier::spinoff_prover]
    pub fn edit(&mut self, edit: Edit)
        requires
            old(self).wf(),
        ensures
            final(self).wf(),
            edited_chat(*old(self), *final(self), edit),
    {
        proof { reveal(edited_chat); }
        if self.screen.focus == Focus::Message {
            let moves = match edit {
                Edit::Left { .. } | Edit::Right { .. } | Edit::Home { .. } | Edit::End { .. } | Edit::SelectAll => true,
                _ => false,
            };
            if !moves && self.boxes.draft.len() > 0 {
                self.remember(Change::Other);
            } else {
                self.history.last_change = Change::Other;
            }
            apply_edit(&mut self.boxes.draft, edit);
        } else if self.screen.focus == Focus::Search {
            apply_edit(&mut self.boxes.search, edit);
            let ghost mid = *self;
            self.update_visible();
            assert(visible_updated(mid, *self));
        } else {
            apply_edit(&mut self.finder.field, edit);
            self.find_changed();
        }
    }

    /// Types `c` into the box that has the caret.
    #[verifier::spinoff_prover]
    pub fn insert(&mut self, c: char)
        requires
            old(self).wf(),
        ensures
            final(self).wf(),
            inserted(*old(self), *final(self), c),
    {
        proof { reveal(inserted); }
        if self.call.dialpad_open && !(('0' <= c && c <= '9') || c == '+') {
            return;
        }
        if self.screen.focus == Focus::Message {
            self.remember(Change::Type);
            self.boxes.draft.push(c);
            if c == ' ' {
                self.history.last_change = Change::Other;
            }
        } else if self.screen.focus == Focus::Search {
            self.boxes.search.push(c);
            let ghost mid = *self;
            self.update_visible();
            assert(visible_updated(mid, *self));
        } else {
            self.finder.field.push(c);
            self.find_changed();
        }
    }

    /// A dead key that waits for its letter is typed as it is.
    pub fn flush_accent(&mut self)
        requires
            old(self).wf(),
        ensures
            final(self).wf(),
            accent_flushed(*old(self), *final(self)),
    {
        proof { reveal(accent_flushed); }
        if let Some(accent) = self.marks.pending_accent {
            self.marks.pending_accent = None;
            self.insert(accent);
        }
    }

    /// Whether a text box has the caret (the blink timer runs only then).
    pub fn editing(&self) -> (editing: bool)
        ensures
            editing == is_editing(*self),
    {
        if self.dialog.open || self.call.phase != CallPhase::Idle {
            return false;
        }
        match self.screen.focus {
            Focus::Search => true,
            Focus::Find => self.finder.open,
            Focus::Message => self.screen.open && self.screen.tab == Tab::Chats && !self.screen.new_chat,
        }
    }

    /// The text selected in the box that has the caret.
    pub fn selected_text(&self) -> (text: String)
        requires
            self.wf(),
        ensures
            text@ == selected_of(*self),
    {
        match self.screen.focus {
            Focus::Message => self.boxes.draft.selected_text(),
            Focus::Search => self.boxes.search.selected_text(),
            Focus::Find => self.finder.field.selected_text(),
        }
    }

    /// Ctrl+C: the selected text waits to go to the clipboard.
    pub fn copy_selection(&mut self)
        requires
            old(self).wf(),
        ensures
            final(self).wf(),
            copied(*old(self), *final(self)),
    {
        proof { reveal(copied); }
        let text = self.selected_text();
        if text.unicode_len() == 0 {
            return;
        }
        self.clipboard.text = text;
        self.clipboard.pending = true;
    }

    /// Text the window should put on the clipboard now, if a copy or cut just happened.
    pub fn pending_copy(&mut self) -> (text: Option<String>)
        ensures
            !old(self).clipboard.pending ==> text is None && *final(self) == *old(self),
            old(self).clipboard.pending ==> (text matches Some(t) && t@ == old(self).clipboard.text@)
                && *final(self) == (Chat { clipboard: Clipboard { pending: false, ..old(self).clipboard }, ..*old(self) }),
    {
        if !self.clipboard.pending {
            return None;
        }
        self.clipboard.pending = false;
        Some(self.clipboard.text.as_str().to_owned())
    }

    /// Whether the window should ask the clipboard for its text now (Ctrl+V); asking once is enough.
    pub fn take_paste_request(&mut self) -> (wanted: bool)
        ensures
            wanted == old(self).clipboard.paste_wanted,
            *final(self) == (Chat { clipboard: Clipboard { paste_wanted: false, ..old(self).clipboard }, ..*old(self) }),
    {
        let wanted = self.clipboard.paste_wanted;
        self.clipboard.paste_wanted = false;
        wanted
    }

    /// Text that arrived from the clipboard: typed at the caret, a line break counting as a space.
    #[verifier::spinoff_prover]
    pub fn paste(&mut self, text: &str)
        requires
            old(self).wf(),
        ensures
            final(self).wf(),
            pasted(*old(self), *final(self), text@),
    {
        if !self.editing() {
            return;
        }
        let chars = crate::text::chars_of(text);
        let ghost start = *self;
        let ghost mut states: Seq<Chat> = seq![*self];
        let mut i: usize = 0;
        while i < chars.len()
            invariant
                0 <= i <= chars@.len(),
                chars@ == text@,
                start == *old(self),
                self.wf(),
                typed_through(states, chars@.take(i as int)),
                states[0] == start,
                states.last() == *self,
            decreases chars@.len() - i,
        {
            let c = chars[i];
            let shown = if c == '\n' || c == '\r' || c == '\t' { ' ' } else { c };
            self.insert(shown);
            proof {
                assert(paste_char(c) == shown);
                let before = states;
                states = states.push(*self);
                assert forall|k: int| 0 <= k < i + 1 implies #[trigger] inserted(states[k], states[k + 1], paste_char(chars@.take(i + 1)[k])) by {
                    if k < i {
                        assert(chars@.take(i + 1)[k] == chars@.take(i as int)[k]);
                        assert(inserted(before[k], before[k + 1], paste_char(chars@.take(i as int)[k])));
                    }
                }
            }
            i = i + 1;
        }
        assert(chars@.take(chars@.len() as int) =~= chars@);
        assert(typed_through(states, text@));
        let ghost mid = *self;
        self.screen.caret_on = true;
        assert(typed_in(start, mid, text@));
    }

    /// The pointer is dragged over the message box's text (`message`) or the search box's with the
    /// button held: the selection grows to character `index`.
    pub fn drag_field(&mut self, message: bool, index: usize)
        requires
            old(self).wf(),
        ensures
            final(self).wf(),
            field_dragged(*old(self), *final(self), message, index),
    {
        if message {
            self.boxes.draft.move_caret(index, true);
        } else {
            self.boxes.search.move_caret(index, true);
        }
        self.screen.caret_on = true;
    }

    /// A click in the find bar's text at character `index`: the caret; a second click in a row
    /// selects the word, a third the whole text.
    pub fn click_find(&mut self, index: usize, clicks: u8)
        requires
            old(self).wf(),
        ensures
            final(self).wf(),
            find_clicked(*old(self), *final(self), index, clicks),
    {
        self.screen.focus = Focus::Find;
        click_box(&mut self.finder.field, index, clicks);
        self.screen.caret_on = true;
    }

    /// The pointer is dragged over the find bar's text: the selection grows to character `index`.
    pub fn drag_find(&mut self, index: usize)
        requires
            old(self).wf(),
        ensures
            final(self).wf(),
            find_dragged(*old(self), *final(self), index),
    {
        self.finder.field.move_caret(index, true);
        self.screen.caret_on = true;
    }

    /// A click on the message box's text (`message`) or the search box's at character `index`: the
    /// caret; a second click in a row selects the word, a third the whole text.
    pub fn click_field(&mut self, message: bool, index: usize, clicks: u8)
        requires
            old(self).wf(),
        ensures
            final(self).wf(),
            field_clicked(*old(self), *final(self), message, index, clicks),
    {
        if message {
            click_box(&mut self.boxes.draft, index, clicks);
        } else {
            click_box(&mut self.boxes.search, index, clicks);
        }
        self.screen.caret_on = true;
    }

    /// The caret of the message box and its selection, as byte offsets.
    pub fn message_caret(&self) -> (caret: (usize, (usize, usize)))
        requires
            self.wf(),
        ensures
            caret.0 == byte_at_char(self.boxes.draft@.text, self.boxes.draft@.cursor),
            (caret.1.0 as int, caret.1.1 as int) == (byte_at_char(self.boxes.draft@.text, selection_of(self.boxes.draft@).0),
                byte_at_char(self.boxes.draft@.text, selection_of(self.boxes.draft@).1)),
    {
        (self.boxes.draft.cursor(), self.boxes.draft.selection())
    }

    /// The caret of the search box and its selection, as byte offsets.
    pub fn search_caret(&self) -> (caret: (usize, (usize, usize)))
        requires
            self.wf(),
        ensures
            caret.0 == byte_at_char(self.boxes.search@.text, self.boxes.search@.cursor),
            (caret.1.0 as int, caret.1.1 as int) == (byte_at_char(self.boxes.search@.text, selection_of(self.boxes.search@).0),
                byte_at_char(self.boxes.search@.text, selection_of(self.boxes.search@).1)),
    {
        (self.boxes.search.cursor(), self.boxes.search.selection())
    }

    /// A cursor or deletion key, with Shift and Ctrl.
    pub fn edit_key(&mut self, key: EditKey, shift: bool, ctrl: bool)
        requires
            old(self).wf(),
        ensures
            final(self).wf(),
            edited_chat(*old(self), *final(self), edit_of(key, shift, ctrl)),
    {
        let edit = match key {
            EditKey::Left => Edit::Left { word: ctrl, extend: shift },
            EditKey::Right => Edit::Right { word: ctrl, extend: shift },
            EditKey::Home => Edit::Home { extend: shift },
            EditKey::End => Edit::End { extend: shift },
            EditKey::Delete => if ctrl { Edit::DeleteWordForward } else { Edit::DeleteForward },
            EditKey::Backspace => Edit::DeleteWordBack,
        };
        self.edit(edit);
    }

    /// Ctrl and a letter (lowercase), with or without Shift.
    #[verifier::spinoff_prover]
    #[verifier::rlimit(100)]
    pub fn ctrl_key(&mut self, letter: char, shift: bool)
        requires
            old(self).wf(),
        ensures
            final(self).wf(),
            ctrl_keyed(*old(self), *final(self), letter, shift),
    {
        if letter == 'z' && shift {
            self.redo();
        } else if letter == 'z' {
            self.undo();
        } else if letter == 'y' {
            self.redo();
        } else if letter == 'a' || letter == 'e' || letter == 'w' || letter == 'u' || letter == 'k' || letter == 'd' || letter == 'h' {
            let edit = ctrl_edit_of(letter);
            self.edit(edit);
        } else if letter == 'c' {
            self.copy_selection();
        } else if letter == 'x' {
            self.copy_selection();
            let ghost mid = *self;
            self.edit(Edit::Backspace);
            assert(copied(*old(self), mid));
        } else if letter == 'v' {
            self.clipboard.paste_wanted = true;
        } else if letter == 'f' {
            self.open_find();
        }
    }
}


// ---- sending and editing our messages

/// What finishing an edit does: the message being edited takes the text of the box and the core is
/// told (`EDIT chat id text`); the box empties and the reply mark goes.
#[verifier::opaque]
pub open spec fn edit_finished(prior: Chat, next: Chat) -> bool {
    let id = prior.boxes.reply_to@;
    let text = prior.boxes.draft@.text;
    let selected = prior.screen.selected;
    &&& match id_position(prior.store.messages@, selected as u8, id) {
        Some(i) => {
            &&& sent(prior.outbox@, next.outbox@, send_line("EDIT\t"@, selected as int, id + seq!['\t'] + text))
            &&& next.store.messages@.len() == prior.store.messages@.len()
            &&& next.store.messages@[i].text@ == text
            &&& next.store.messages@[i] == Message { text: next.store.messages@[i].text, height: next.store.messages@[i].height,
                ..prior.store.messages@[i] }
            &&& forall|j: int| 0 <= j < prior.store.messages@.len() && j != i ==> next.store.messages@[j] == prior.store.messages@[j]
        },
        None => next.outbox == prior.outbox && next.store.messages == prior.store.messages,
    }
    &&& next.boxes.reply_to@.len() == 0 && !next.boxes.editing
    &&& prior.boxes.editing ==> next.boxes.draft@ == empty_field()
    &&& !prior.boxes.editing ==> next.boxes.draft == prior.boxes.draft
    &&& next.history.undo@.len() == 0 && next.history.redo@.len() == 0 && next.history.last_change == Change::Other
    &&& next.screen == prior.screen && next.store.conversations == prior.store.conversations
}

/// What Enter in the message box does at `now`: nothing with an empty box or no conversation open;
/// an edit is finished; else the text goes to the core (`SEND chat text`, or `REPLY chat id text`
/// when it answers a message) as the one line written, shows as our newest message, the
/// conversation goes to the top (with the new-conversation panel open, the contacts are asked for
/// again after it), the box empties and the view goes to the bottom.
#[verifier::opaque]
pub open spec fn draft_sent(prior: Chat, next: Chat, now: int) -> bool {
    let text = prior.boxes.draft@.text;
    if text.len() == 0 || !prior.screen.open {
        next == prior
    } else if prior.boxes.editing {
        edit_finished(prior, next)
    } else {
        let selected = prior.screen.selected;
        let reply = match id_position(prior.store.messages@, selected as u8, prior.boxes.reply_to@) {
            Some(q) => prior.store.messages@[q].id@,
            None => Seq::empty(),
        };
        let line = if reply.len() > 0 { send_line("REPLY\t"@, selected as int, reply + seq!['\t'] + text) }
            else { send_line("SEND\t"@, selected as int, text) };
        &&& sent(prior.outbox@, next.outbox@.take(prior.outbox@.len() + 1int), line)
        &&& next.outbox@.len() == prior.outbox@.len() + (if prior.screen.new_chat { 2int } else { 1int })
        &&& prior.screen.new_chat ==> next.outbox@.last()@ == "CONTACTS\t"@ + prior.boxes.search@.text
        &&& next.store.messages@.drop_last() == kept_messages(prior.store.messages@)
        &&& fresh(next.store.messages@.last(), selected, true, Delivery::Sent, text, clock_text(now), day_of_seconds(now), ""@, reply)
        &&& next.store.conversations@[selected as int].rank == prior.store.next_live_rank
        &&& next.boxes.draft@ == empty_field() && next.boxes.reply_to@.len() == 0 && !next.boxes.editing
        &&& next.history.undo@.len() == 0 && next.history.redo@.len() == 0
        &&& next.scroll.conversation == overflow(layout_of(&next).1, viewport_of(&next))
    }
}

/// `a`, a tab and `b`.
fn tabbed(a: &str, b: &str) -> (joined: String)
    ensures
        joined@ == a@ + seq!['\t'] + b@,
{
    let mut chars = crate::text::chars_of(a);
    chars.push('\t');
    let mut rest = crate::text::chars_of(b);
    chars.append(&mut rest);
    crate::text::string_of(chars.as_slice())
}

/// Our message `index` put in the box to change it.
pub open spec fn edit_started(prior: Chat, next: Chat, index: usize) -> bool {
    &&& ({
        let m = prior.store.messages@[index as int];
        if !m.outgoing || m.deleted || m.id@.len() == 0 {
            next == prior
        } else {
            &&& next.boxes.reply_to@ == m.id@ && next.boxes.editing
            &&& next.boxes.draft@ == (FieldView { text: fit(m.text@, MESSAGE_CAPACITY as nat),
                cursor: fit(m.text@, MESSAGE_CAPACITY as nat).len() as int, anchor: fit(m.text@, MESSAGE_CAPACITY as nat).len() as int })
            &&& next.history.undo@.len() == 0 && next.history.redo@.len() == 0
            &&& next == (Chat { boxes: Boxes { reply_to: next.boxes.reply_to, editing: true, draft: next.boxes.draft,
                ..prior.boxes }, history: next.history, screen: Screen { focus: Focus::Message, ..prior.screen },
                ..prior })
        }
    })
}

impl Chat {
    /// Puts our message `index` in the box to change it; a message of theirs, a deleted one, or one
    /// without an id cannot be changed.
    pub fn start_edit(&mut self, index: usize)
        requires
            old(self).wf(),
            index < old(self).store.messages@.len(),
        ensures
            final(self).wf(),
            edit_started(*old(self), *final(self), index),
    {
        let message = &self.store.messages[index];
        if !message.outgoing || message.deleted || message.id.unicode_len() == 0 {
            return;
        }
        assert(crate::screen::message_wf(self.store.messages@[index as int]));
        let id = message.id.as_str().to_owned();
        let text = crate::text::chars_of(message.text.as_str());
        self.cancel_reply();
        self.boxes.reply_to = id;
        self.boxes.editing = true;
        self.boxes.draft.set(text.as_slice());
        self.forget_history();
        self.screen.focus = Focus::Message;
    }

    /// Sends the edited text (`EDIT chat id text`) and shows it in place of the old one.
    #[verifier::spinoff_prover]
    #[verifier::rlimit(40)]
    fn finish_edit(&mut self)
        requires
            old(self).wf(),
        ensures
            final(self).wf(),
            edit_finished(*old(self), *final(self)),
    {
        proof { reveal(edit_finished); }
        let id = self.boxes.reply_to.as_str().to_owned();
        let selected = self.screen.selected;
        if let Some(index) = self.message_with_id(selected as u8, id.as_str()) {
            let text = self.boxes.draft.text();
            let rest = tabbed(id.as_str(), text.as_str());
            let line = command_line("EDIT\t", selected, rest.as_str());
            self.tell_core(line);
            proof {
                self.boxes.draft.lemma_wf();
                crate::field::lemma_bytes_bound_len(text@);
            }
            self.store.messages[index].text = text;
            proof {
                assert forall|i: int| 0 <= i < self.store.messages@.len() implies crate::screen::message_wf(#[trigger] self.store.messages@[i]) by {
                    assert(crate::screen::message_wf(old(self).store.messages@[i]));
                }
            }
            self.recompute_height(index);
        }
        self.cancel_reply();
        self.forget_history();
    }

    /// Enter in the message box, at `now` (seconds since 1970).
    #[verifier::spinoff_prover]
    #[verifier::rlimit(80)]
    pub fn send_at(&mut self, now: i64)
        requires
            old(self).wf(),
            now >= i64::MIN + 10800,
        ensures
            final(self).wf(),
            draft_sent(*old(self), *final(self), now as int),
    {
        proof { reveal(draft_sent); }
        let len = self.boxes.draft.len();
        if len == 0 || !self.screen.open {
            return;
        }
        if self.boxes.editing {
            self.finish_edit();
            return;
        }
        let selected = self.screen.selected;
        let reply: String = match self.replying_to() {
            Some(quoted) => quoted.id.as_str().to_owned(),
            None => String::new(),
        };
        let text = self.boxes.draft.text();
        let line = if reply.unicode_len() > 0 {
            let rest = tabbed(reply.as_str(), text.as_str());
            command_line("REPLY\t", selected, rest.as_str())
        } else {
            command_line("SEND\t", selected, text.as_str())
        };
        let ghost before = self.outbox@;
        self.tell_core(line);
        let ghost told = self.outbox@;
        let time = crate::link::clock_at(now);
        let (days, _) = crate::text::div_rem_euclid(now - 10800, 86400);
        let day: u16 = days as u16;
        assert(day == day_of_seconds(now as int));
        proof { reveal_strlit(""); }
        self.push_message(selected, true, Delivery::Sent, text.as_str(), time, day, "", reply.as_str());
        let ghost pushed = self.store.messages@;
        self.bump(selected);
        assert(self.outbox@.take(told.len() as int) =~= told);
        assert(self.outbox@.take(before.len() as int) =~= told.take(before.len() as int));
        assert(self.outbox@.take(before.len() + 1int) =~= told);
        self.boxes.draft.clear();
        self.forget_history();
        self.cancel_reply();
        self.scroll.conversation = self.max_conversation_scroll();
        assert(self.store.messages@ == pushed);
    }

    /// Enter in the message box, now.
    pub fn send(&mut self)
        requires
            old(self).wf(),
        ensures
            final(self).wf(),
            exists|now: int| #[trigger] draft_sent(*old(self), *final(self), now),
    {
        let now = crate::chat::now_seconds();
        self.send_at(now);
    }
}


// ---- keys

/// What a key press means once the keyboard layout is applied.
#[derive(Clone, Copy, PartialEq, Eq, Structural, Debug)]
pub enum Key {
    Char(char),
    /// An accent waiting for the letter it goes on (`~` then `a` gives ã).
    Dead(char),
    Backspace,
    Enter,
    Escape,
    Up,
    Down,
    PageUp,
    PageDown,
    /// A cursor or deletion key with the modifiers that change what it does.
    Edit { key: EditKey, shift: bool, ctrl: bool },
    /// Ctrl and a letter (lowercase), and whether Shift was held too.
    Ctrl(char, bool),
    Other,
}

/// The view scrolled by `notches` steps (see `scroll_conversation`).
pub open spec fn conversation_scrolled(prior: Chat, next: Chat, notches: int) -> bool {
    let max = overflow(layout_of(&prior).1, viewport_of(&prior));
    let scrolled = clamped(prior.scroll.conversation + notches * crate::chat_messages::CONVERSATION_SCROLL_STEP, 0, max);
    &&& next.scroll.conversation == scrolled
    &&& next.scroll.below_count == (if scrolled >= max - 8 { 0 } else { prior.scroll.below_count })
    &&& next == (Chat { marks: crate::screen::Marks { flash: None, ..prior.marks },
        scroll: Scroll { conversation: next.scroll.conversation, below_count: next.scroll.below_count, ..prior.scroll }, ..prior })
}

/// A page of the view, in scroll steps (at least one).
pub open spec fn page_notches(chat: Chat) -> int {
    let steps = div_toward_zero(viewport_of(&chat), crate::chat_messages::CONVERSATION_SCROLL_STEP as int);
    if steps > 1 { steps } else { 1 }
}

/// What a key other than a letter or a dead key does, once a waiting accent was typed.
#[verifier::opaque]
pub open spec fn acted(prior: Chat, next: Chat, key: Key, now: int) -> bool {
    let focus = prior.screen.focus;
    match key {
        Key::Backspace => edited_chat(prior, next, Edit::Backspace),
        Key::Edit { key, shift, ctrl } => edited_chat(prior, next, edit_of(key, shift, ctrl)),
        Key::Ctrl(letter, shift) => ctrl_keyed(prior, next, letter, shift),
        Key::Enter => if focus == Focus::Message { draft_sent(prior, next, now) }
            else if focus == Focus::Find { find_stepped(prior, next, false) } else { next == prior },
        Key::Escape => if focus == Focus::Find {
                next == (Chat { finder: Finder { open: false, ..prior.finder }, screen: Screen { focus: Focus::Message, ..prior.screen }, ..prior })
            } else if focus == Focus::Message && prior.boxes.reply_to@.len() > 0 {
                &&& next.boxes.reply_to@.len() == 0 && !next.boxes.editing
                &&& prior.boxes.editing ==> next.boxes.draft@ == empty_field()
                &&& !prior.boxes.editing ==> next.boxes.draft == prior.boxes.draft
                &&& next == (Chat { boxes: Boxes { reply_to: next.boxes.reply_to, editing: false, draft: next.boxes.draft, ..prior.boxes }, ..prior })
            } else if focus == Focus::Message && prior.screen.open && prior.screen.tab == Tab::Chats {
                &&& next.screen == (Screen { info_open: false, open: false, ..prior.screen })
                &&& next.boxes.draft@ == empty_field()
                &&& next.history.undo@.len() == 0 && next.history.redo@.len() == 0
                &&& next.marks == (crate::screen::Marks { picker_open: false, ..prior.marks })
                &&& next.finder == (Finder { open: false, ..prior.finder })
                &&& next.store.messages == prior.store.messages
            } else if focus == Focus::Search {
                &&& next.boxes.search@ == empty_field()
                &&& next.screen == (Screen { focus: Focus::Message, ..prior.screen })
                &&& visible_updated(Chat { boxes: Boxes { search: next.boxes.search, ..prior.boxes }, ..prior },
                    Chat { screen: prior.screen, ..next })
            } else {
                next == prior
            },
        Key::Up => if focus == Focus::Find { find_stepped(prior, next, false) } else { conversation_scrolled(prior, next, -1) },
        Key::Down => if focus == Focus::Find { find_stepped(prior, next, true) } else { conversation_scrolled(prior, next, 1) },
        Key::PageUp => conversation_scrolled(prior, next, -page_notches(prior)),
        Key::PageDown => conversation_scrolled(prior, next, page_notches(prior)),
        _ => next == prior,
    }
}

/// What a letter or a dead key does: a dead key waits for its letter (the same one twice types it,
/// another types the first); a letter after a dead key takes its accent, or both are typed (a space
/// after a dead key types the accent alone).
#[verifier::opaque]
pub open spec fn letter_typed(prior: Chat, next: Chat, key: Key) -> bool {
    let waiting = prior.marks.pending_accent;
    let cleared = Chat { marks: crate::screen::Marks { pending_accent: None, ..prior.marks }, ..prior };
    match key {
        Key::Dead(accent) => match waiting {
            Some(previous) => if previous == accent { inserted(cleared, next, accent) }
                else { inserted(Chat { marks: crate::screen::Marks { pending_accent: Some(accent), ..prior.marks }, ..prior }, next, previous) },
            None => next == (Chat { marks: crate::screen::Marks { pending_accent: Some(accent), ..prior.marks }, ..prior }),
        },
        Key::Char(c) => match waiting {
            Some(accent) => match crate::items::composed(accent, c) {
                Some(letter) => inserted(cleared, next, letter),
                None => if c != ' ' { exists|mid: Chat| #[trigger] inserted(cleared, mid, accent) && inserted(mid, next, c) }
                    else { inserted(cleared, next, accent) },
            },
            None => inserted(prior, next, c),
        },
        _ => next == prior,
    }
}

/// What a key press does once the caret shows, the flash is gone and the banner cleared: an open
/// forward list or message box takes it (Esc closes them, Enter the box when it asks nothing); Esc
/// closes the innermost open menu or panel; with no conversation open the message box takes no
/// key; the rest is typing, editing, sending and scrolling.
#[verifier::opaque]
pub open spec fn dispatched(prior: Chat, next: Chat, key: Key, now: int) -> bool {
    let escape = key is Escape;
    if prior.marks.forward_open {
        if escape { next == (Chat { marks: crate::screen::Marks { forward_open: false, ..prior.marks }, ..prior }) } else { next == prior }
    } else if prior.dialog.open {
        if escape {
            next == (Chat { dialog: crate::screen::Dialog { open: false, confirm_delete: None, confirm_clear: None, confirm_remove: None,
                ..prior.dialog }, ..prior })
        } else if key is Enter && !prior.dialog.asks() {
            next == (Chat { dialog: crate::screen::Dialog { open: false, ..prior.dialog }, ..prior })
        } else {
            next == prior
        }
    } else if prior.marks.message_menu is Some && escape {
        next == (Chat { marks: crate::screen::Marks { message_menu: None, ..prior.marks }, ..prior })
    } else if prior.screen.info_open && prior.screen.open && escape && !prior.screen.chat_menu_open {
        next == (Chat { screen: Screen { info_open: false, ..prior.screen }, ..prior })
    } else if prior.screen.chat_menu_open && escape {
        next == (Chat { screen: Screen { chat_menu_open: false, ..prior.screen }, ..prior })
    } else if prior.screen.menu_open && escape {
        next == (Chat { screen: Screen { menu_open: false, ..prior.screen }, ..prior })
    } else if (!prior.screen.open || prior.screen.tab != Tab::Chats) && prior.screen.focus == Focus::Message {
        next == prior
    } else if escape && prior.screen.starred_open {
        next == (Chat { screen: Screen { starred_open: false, ..prior.screen }, scroll: Scroll { panel: 0, ..prior.scroll }, ..prior })
    } else if escape && prior.call.dialpad_open {
        &&& next.boxes.search@ == empty_field()
        &&& next == (Chat { call: crate::screen::CallScreen { dialpad_open: false, ..prior.call }, boxes: Boxes { search: next.boxes.search,
            ..prior.boxes }, screen: Screen { focus: Focus::Message, ..prior.screen }, ..prior })
    } else if escape && prior.screen.new_chat {
        &&& next.screen == (Screen { new_chat: false, focus: Focus::Message, ..prior.screen })
        &&& next.boxes.search@ == empty_field()
        &&& crate::chat_lists::list_order(prior.store.conversations@, prior.screen.unread_only, Seq::empty(), next.store.visible@)
        &&& next == (Chat { screen: next.screen, boxes: Boxes { search: next.boxes.search, ..prior.boxes },
            store: crate::screen::Store { visible: next.store.visible, ..prior.store },
            scroll: Scroll { list: next.scroll.list, panel: next.scroll.panel, ..prior.scroll }, ..prior })
    } else if escape && prior.marks.picker_open {
        next == (Chat { marks: crate::screen::Marks { picker_open: false, ..prior.marks }, ..prior })
    } else if key is Dead || key is Char {
        letter_typed(prior, next, key)
    } else {
        exists|mid: Chat| #[trigger] accent_flushed(prior, mid) && acted(mid, next, key, now)
    }
}

/// A key press: the caret shows, a flash and the banner go, and the key does what `dispatched` says at some time `now`.
pub open spec fn key_pressed(prior: Chat, next: Chat, key: Key) -> bool {
    &&& exists|shown: Chat, now: int| #[trigger] dispatched(shown, next, key, now) && shown.boxes.banner@ == empty_field()
        && shown == (Chat { screen: Screen { caret_on: true, ..prior.screen },
            marks: crate::screen::Marks { flash: None, ..prior.marks },
            boxes: Boxes { banner: shown.boxes.banner, ..prior.boxes }, ..prior })
}

impl Chat {
    /// A key other than a letter or a dead key, once a waiting accent was typed.
    #[verifier::spinoff_prover]
    #[verifier::rlimit(100)]
    fn act(&mut self, key: Key, now: i64)
        requires
            old(self).wf(),
            now >= i64::MIN + 10800,
        ensures
            final(self).wf(),
            acted(*old(self), *final(self), key, now as int),
    {
        proof { reveal(acted); }
        let focus = self.screen.focus;
        match key {
            Key::Backspace => self.edit(Edit::Backspace),
            Key::Edit { key, shift, ctrl } => self.edit_key(key, shift, ctrl),
            Key::Ctrl(letter, shift) => self.ctrl_key(letter, shift),
            Key::Enter => {
                if focus == Focus::Message {
                    self.send_at(now);
                } else if focus == Focus::Find {
                    self.find_step(false);
                }
            },
            Key::Escape => {
                if focus == Focus::Find {
                    self.close_find();
                } else if focus == Focus::Message && self.boxes.reply_to.unicode_len() > 0 {
                    self.cancel_reply();
                } else if focus == Focus::Message && self.screen.open && self.screen.tab == Tab::Chats {
                    self.close_conversation();
                } else if focus == Focus::Search {
                    self.boxes.search.clear();
                    let ghost mid = *self;
                    self.update_visible();
                    assert(visible_updated(mid, *self));
                    self.screen.focus = Focus::Message;
                }
            },
            Key::Up => {
                if focus == Focus::Find {
                    self.find_step(false);
                } else {
                    self.scroll_conversation(-1);
                }
            },
            Key::Down => {
                if focus == Focus::Find {
                    self.find_step(true);
                } else {
                    self.scroll_conversation(1);
                }
            },
            Key::PageUp => {
                let notches = self.page();
                self.scroll_conversation(-notches);
            },
            Key::PageDown => {
                let notches = self.page();
                self.scroll_conversation(notches);
            },
            _ => {},
        }
    }

    /// A page of the view, in scroll steps (at least one).
    fn page(&self) -> (notches: i32)
        requires
            self.wf(),
        ensures
            notches == page_notches(*self),
            1 <= notches <= 0x10_0000,
    {
        let view = self.viewport_height();
        let steps: i32 = if view >= 0 { view / crate::chat_messages::CONVERSATION_SCROLL_STEP }
            else { -((-view) / crate::chat_messages::CONVERSATION_SCROLL_STEP) };
        if steps > 1 { steps } else { 1 }
    }

    /// A letter or a dead key.
    #[verifier::spinoff_prover]
    #[verifier::rlimit(60)]
    fn type_letter(&mut self, key: Key)
        requires
            old(self).wf(),
        ensures
            final(self).wf(),
            letter_typed(*old(self), *final(self), key),
    {
        proof { reveal(letter_typed); }
        match key {
            Key::Dead(accent) => {
                let waiting = self.marks.pending_accent;
                self.marks.pending_accent = Some(accent);
                match waiting {
                    Some(previous) => {
                        if previous == accent {
                            self.marks.pending_accent = None;
                            self.insert(accent);
                        } else {
                            self.insert(previous);
                        }
                    },
                    None => {},
                }
            },
            Key::Char(c) => {
                let waiting = self.marks.pending_accent;
                self.marks.pending_accent = None;
                match waiting {
                    Some(accent) => match crate::items::compose(accent, c) {
                        Some(letter) => self.insert(letter),
                        None => {
                            self.insert(accent);
                            if c != ' ' {
                                let ghost mid = *self;
                                self.insert(c);
                                assert(inserted(mid, *self, c));
                            }
                        },
                    },
                    None => self.insert(c),
                }
            },
            _ => {},
        }
    }

    /// What a key press does after the caret shows, the flash went and the banner cleared.
    #[verifier::spinoff_prover]
    #[verifier::rlimit(100)]
    fn dispatch(&mut self, key: Key, now: i64)
        requires
            old(self).wf(),
            now >= i64::MIN + 10800,
        ensures
            final(self).wf(),
            dispatched(*old(self), *final(self), key, now as int),
    {
        proof { reveal(dispatched); }
        let escape = match key { Key::Escape => true, _ => false };
        if self.marks.forward_open {
            if escape {
                self.marks.forward_open = false;
            }
            return;
        }
        if self.dialog.open {
            if escape {
                self.dialog_answer(false);
            } else if (match key { Key::Enter => true, _ => false }) && !self.confirming() {
                self.dialog.open = false;
            }
            return;
        }
        if self.marks.message_menu.is_some() && escape {
            self.marks.message_menu = None;
            return;
        }
        if self.screen.info_open && self.screen.open && escape && !self.screen.chat_menu_open {
            self.screen.info_open = false;
            return;
        }
        if self.screen.chat_menu_open && escape {
            self.screen.chat_menu_open = false;
            return;
        }
        if self.screen.menu_open && escape {
            self.screen.menu_open = false;
            return;
        }
        if (!self.screen.open || self.screen.tab != Tab::Chats) && self.screen.focus == Focus::Message {
            return;
        }
        if escape && self.screen.starred_open {
            self.close_starred();
            return;
        }
        if escape && self.call.dialpad_open {
            self.close_dialpad();
            return;
        }
        if escape && self.screen.new_chat {
            self.close_new_chat();
            return;
        }
        if escape && self.marks.picker_open {
            self.marks.picker_open = false;
            return;
        }
        match key {
            Key::Dead(_) | Key::Char(_) => self.type_letter(key),
            _ => {
                self.flush_accent();
                let ghost mid = *self;
                self.act(key, now);
                assert(accent_flushed(*old(self), mid) && acted(mid, *self, key, now as int));
            },
        }
    }

    /// A key press at `now` (seconds since 1970): the caret shows, a flash and the banner go, and
    /// the key does what `dispatched` says.
    pub fn key_at(&mut self, key: Key, now: i64)
        requires
            old(self).wf(),
            now >= i64::MIN + 10800,
        ensures
            final(self).wf(),
            exists|shown: Chat| #[trigger] dispatched(shown, *final(self), key, now as int) && shown.boxes.banner@ == empty_field()
                && shown == (Chat { screen: Screen { caret_on: true, ..old(self).screen },
                    marks: crate::screen::Marks { flash: None, ..old(self).marks },
                    boxes: Boxes { banner: shown.boxes.banner, ..old(self).boxes }, ..*old(self) }),
    {
        self.screen.caret_on = true;
        self.marks.flash = None;
        self.boxes.banner.clear();
        let ghost shown = *self;
        self.dispatch(key, now);
        assert(dispatched(shown, *self, key, now as int));
    }

    /// A key press, now.
    pub fn key(&mut self, key: Key)
        requires
            old(self).wf(),
        ensures
            final(self).wf(),
            key_pressed(*old(self), *final(self), key),
    {
        let now = crate::chat::now_seconds();
        self.key_at(key, now);
    }
}

} // verus!
