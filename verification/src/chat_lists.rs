//! The list screens of the chat: where their rows go, how far they scroll, and the order of the
//! conversation list.

use vstd::prelude::*;
use crate::chat::{Chat, sent};
use crate::items::{Item, Call, Conversation, CallsItem, StatusItem, ChannelsItem, ContactsItem, Tab, Focus, MAX_CHATS,
    PHONE_DIGITS, matches_name, name_matches, initial, initial_of, phone_scan, phone_digits};
use crate::layout::{HEADER_H, ROW_H, LIST_TOP};
use crate::screen::{Screen, Scroll, Boxes, Store, empty_field, SEARCH_CAPACITY};
use crate::text::{string_of, chars_of};

verus! {

/// Where the content of the calls list starts when it is not scrolled.
pub const CALLS_TOP: i32 = 119;
pub const CALLS_ROW_H: i32 = 76;
pub const FAVORITES_HEADER_H: i32 = 56;
pub const RECENTS_HEADER_H: i32 = 61;
/// Below the header and the search box; nothing of the list shows above this.
pub const CALLS_VIEW_TOP: i32 = 107;
// The status screen: no search box, the list starts under the header.
pub const STATUS_LABEL_H: i32 = 72;
pub const STATUS_ROW_H: i32 = 72;
pub const STATUS_TOP: i32 = 142;
// The channels screen.
pub const CHANNEL_ROW_H: i32 = 76;
pub const SUGGESTIONS_HEADER_H: i32 = 43;
pub const SUGGESTION_ROW_H: i32 = 72;
pub const DISCOVER_BAR_H: i32 = 70;
// The settings screen: the profile photo, then one row per entry.
pub const SETTINGS_PHOTO_TOP: i32 = 180;
pub const SETTINGS_ROWS_TOP: i32 = 363;
pub const SETTINGS_ROW_H: i32 = 68;
pub const SETTINGS_LOGOUT_H: i32 = 60;
pub const SETTINGS_ENTRY_COUNT: i32 = 7;
// The new-conversation panel: three actions, the account itself, then the contacts by initial.
pub const NEW_CHAT_TOP: i32 = 122;
pub const NEW_CHAT_ACTION_H: i32 = 64;
pub const NEW_CHAT_ROW_H: i32 = 72;
pub const NEW_CHAT_SELF_TOP: i32 = 323;
pub const NEW_CHAT_ACTION_COUNT: usize = 3;
pub const LIST_SCROLL_STEP: i32 = 36;
pub const STARRED_ROW_H: i32 = 76;

/// The indices of the names that contain `query`, in order.
pub open spec fn matching_indices(names: Seq<Seq<char>>, query: Seq<char>) -> Seq<int>
    decreases names.len(),
{
    if names.len() == 0 {
        Seq::empty()
    } else {
        let before = matching_indices(names.drop_last(), query);
        if matches_name(names.last(), query) { before.push(names.len() - 1) } else { before }
    }
}

pub open spec fn item_names(items: Seq<Item>) -> Seq<Seq<char>> {
    items.map_values(|item: Item| item.name@)
}

pub open spec fn call_names(calls: Seq<Call>) -> Seq<Seq<char>> {
    calls.map_values(|call: Call| call.name@)
}

/// The rows of a run: a header at `top` when the run has any row, then one row per index.
pub open spec fn run_rows<T>(indices: Seq<int>, top: int, header_h: int, row_h: int, header: T, row: spec_fn(int) -> T) -> Seq<(T, int)> {
    if indices.len() == 0 {
        Seq::empty()
    } else {
        seq![(header, top)] + Seq::new(indices.len(), |k: int| (row(indices[k]), top + header_h + k * row_h))
    }
}

/// Where a run that starts at `top` ends.
pub open spec fn run_end(count: int, top: int, header_h: int, row_h: int) -> int {
    if count == 0 { top } else { top + header_h + count * row_h }
}

/// The rows of the calls screen that match `query`, with their top edge, and the content height.
pub open spec fn calls_layout(favorites: Seq<Call>, calls: Seq<Call>, query: Seq<char>) -> (Seq<(CallsItem, int)>, int) {
    let f = matching_indices(call_names(favorites), query);
    let c = matching_indices(call_names(calls), query);
    let middle = run_end(f.len() as int, CALLS_TOP as int, FAVORITES_HEADER_H as int, CALLS_ROW_H as int);
    (run_rows(f, CALLS_TOP as int, FAVORITES_HEADER_H as int, CALLS_ROW_H as int, CallsItem::FavoritesHeader, |i: int| CallsItem::Favorite(i as usize))
        + run_rows(c, middle, RECENTS_HEADER_H as int, CALLS_ROW_H as int, CallsItem::RecentsHeader, |i: int| CallsItem::Recent(i as usize)),
     run_end(c.len() as int, middle, RECENTS_HEADER_H as int, CALLS_ROW_H as int))
}

/// The indices of the stories seen (`seen`) or not.
pub open spec fn stories_seen(stories: Seq<Item>, seen: bool) -> Seq<int>
    decreases stories.len(),
{
    if stories.len() == 0 {
        Seq::empty()
    } else {
        let before = stories_seen(stories.drop_last(), seen);
        if (stories.last().second == 0) == seen { before.push(stories.len() - 1) } else { before }
    }
}

/// The rows of the status screen with their top edge, and the content height.
pub open spec fn status_layout(stories: Seq<Item>) -> (Seq<(StatusItem, int)>, int) {
    let recent = stories_seen(stories, false);
    let seen = stories_seen(stories, true);
    let middle = run_end(recent.len() as int, STATUS_TOP as int, STATUS_LABEL_H as int, STATUS_ROW_H as int);
    (seq![(StatusItem::Mine, HEADER_H as int)]
        + run_rows(recent, STATUS_TOP as int, STATUS_LABEL_H as int, STATUS_ROW_H as int, StatusItem::RecentLabel, |i: int| StatusItem::Story(i as usize))
        + run_rows(seen, middle, STATUS_LABEL_H as int, STATUS_ROW_H as int, StatusItem::SeenLabel, |i: int| StatusItem::Story(i as usize)),
     run_end(seen.len() as int, middle, STATUS_LABEL_H as int, STATUS_ROW_H as int))
}

/// The rows of the channels screen that match `query`, and the content height.
pub open spec fn channels_layout(channels: Seq<Item>, suggestions: Seq<Item>, query: Seq<char>) -> (Seq<(ChannelsItem, int)>, int) {
    let f = matching_indices(item_names(channels), query);
    let s = matching_indices(item_names(suggestions), query);
    let header = CALLS_TOP + f.len() * CHANNEL_ROW_H;
    let bar = header + SUGGESTIONS_HEADER_H + s.len() * SUGGESTION_ROW_H;
    (Seq::new(f.len(), |k: int| (ChannelsItem::Followed(f[k] as usize), CALLS_TOP + k * CHANNEL_ROW_H))
        + seq![(ChannelsItem::SuggestionsHeader, header)]
        + Seq::new(s.len(), |k: int| (ChannelsItem::Suggestion(s[k] as usize), header + SUGGESTIONS_HEADER_H + k * SUGGESTION_ROW_H))
        + seq![(ChannelsItem::DiscoverBar, bar)],
     bar + DISCOVER_BAR_H)
}

/// Height of the settings screen's content.
pub open spec fn settings_content() -> int {
    SETTINGS_ROWS_TOP + SETTINGS_ENTRY_COUNT * SETTINGS_ROW_H + SETTINGS_LOGOUT_H + 24
}

/// The contacts among `indices`, each under the letter it is filed under when it differs from the
/// one before (`letter`), from `y` on: the rows and where they end.
pub open spec fn contact_rows(contacts: Seq<Item>, indices: Seq<int>, letter: char, y: int) -> (Seq<(ContactsItem, int)>, int)
    decreases indices.len(),
{
    if indices.len() == 0 {
        (Seq::empty(), y)
    } else {
        let index = indices[0];
        let initial = initial(contacts[index].name@);
        let (head, next) = if initial != letter {
            (seq![(ContactsItem::Letter(initial), y), (ContactsItem::Contact(index as usize), y + NEW_CHAT_ROW_H)], y + 2 * NEW_CHAT_ROW_H)
        } else {
            (seq![(ContactsItem::Contact(index as usize), y)], y + NEW_CHAT_ROW_H)
        };
        let (rest, end) = contact_rows(contacts, indices.drop_first(), initial, next);
        (head + rest, end)
    }
}

/// The rows of the new-conversation panel: with an empty search the actions and the account
/// itself; the number typed when it reads as a phone number; the matching contacts by initial.
pub open spec fn contacts_layout(contacts: Seq<Item>, query: Seq<char>) -> (Seq<(ContactsItem, int)>, int) {
    let top: Seq<(ContactsItem, int)> = if query.len() == 0 {
        Seq::new(NEW_CHAT_ACTION_COUNT as nat, |k: int| (ContactsItem::Action(k as usize), NEW_CHAT_TOP + k * NEW_CHAT_ACTION_H))
            + seq![(ContactsItem::Myself, NEW_CHAT_SELF_TOP as int)]
    } else {
        Seq::empty()
    };
    let y = if query.len() == 0 { NEW_CHAT_SELF_TOP + NEW_CHAT_ROW_H } else { NEW_CHAT_TOP as int };
    let is_number = phone_scan(query, query.len()).1 && phone_scan(query, query.len()).0.len() >= 8;
    let number: Seq<(ContactsItem, int)> = if is_number { seq![(ContactsItem::Number, y)] } else { Seq::empty() };
    let y2 = if is_number { y + NEW_CHAT_ROW_H } else { y };
    let (rows, end) = contact_rows(contacts, matching_indices(item_names(contacts), query), '\0', y2);
    (top + number + rows, end)
}

pub open spec fn smaller(a: int, b: int) -> int {
    if b < a { b } else { a }
}

/// How far a content of `content` pixels scrolls in a window `window_height` high.
pub open spec fn overflow(content: int, window_height: int) -> int {
    if content - window_height > 0 { content - window_height } else { 0 }
}

/// Whether conversation `c` shows in the list: it is used, it has unread messages when only those
/// show, and its name contains the search.
pub open spec fn shown(c: Conversation, unread_only: bool, query: Seq<char>) -> bool {
    c.used && (!unread_only || c.unread > 0) && matches_name(c.name@, query)
}

/// The order of the list: higher rank first, and the lower number first for the same rank.
pub open spec fn list_before(conversations: Seq<Conversation>, a: int, b: int) -> bool {
    conversations[a].rank > conversations[b].rank || (conversations[a].rank == conversations[b].rank && a < b)
}

/// `visible` is the list of the conversations that show, in the list's order (there is one such list).
pub open spec fn list_order(conversations: Seq<Conversation>, unread_only: bool, query: Seq<char>, visible: Seq<u8>) -> bool {
    &&& forall|i: int, j: int| 0 <= i < j < visible.len() ==> list_before(conversations, visible[i] as int, visible[j] as int)
    &&& forall|k: int| 0 <= k < MAX_CHATS ==> (shown(conversations[k], unread_only, query) <==> visible.contains(k as u8))
    &&& forall|i: int| 0 <= i < visible.len() ==> (visible[i] as int) < MAX_CHATS
}

fn matching_items(items: &Vec<Item>, query: &str) -> (indices: Vec<usize>)
    ensures
        indices@.map_values(|i: usize| i as int) == matching_indices(item_names(items@), query@),
        forall|k: int| 0 <= k < indices@.len() ==> indices@[k] < items@.len(),
        indices@.len() <= items@.len(),
{
    let ghost all = item_names(items@);
    let mut indices: Vec<usize> = Vec::new();
    let mut i: usize = 0;
    while i < items.len()
        invariant
            0 <= i <= items@.len(),
            all == item_names(items@),
            indices@.map_values(|i: usize| i as int) == matching_indices(all.take(i as int), query@),
            forall|k: int| 0 <= k < indices@.len() ==> indices@[k] < i,
            indices@.len() <= i,
        decreases items@.len() - i,
    {
        assert(all.take(i + 1).drop_last() =~= all.take(i as int));
        assert(all.take(i + 1).last() == items@[i as int].name@);
        if name_matches(items[i].name.as_str(), query) {
            indices.push(i);
        }
        assert(indices@.map_values(|i: usize| i as int) =~= matching_indices(all.take(i + 1), query@));
        i = i + 1;
    }
    assert(all.take(i as int) =~= all);
    indices
}

fn matching_calls(calls: &Vec<Call>, query: &str) -> (indices: Vec<usize>)
    ensures
        indices@.map_values(|i: usize| i as int) == matching_indices(call_names(calls@), query@),
        forall|k: int| 0 <= k < indices@.len() ==> indices@[k] < calls@.len(),
        indices@.len() <= calls@.len(),
{
    let ghost all = call_names(calls@);
    let mut indices: Vec<usize> = Vec::new();
    let mut i: usize = 0;
    while i < calls.len()
        invariant
            0 <= i <= calls@.len(),
            all == call_names(calls@),
            indices@.map_values(|i: usize| i as int) == matching_indices(all.take(i as int), query@),
            forall|k: int| 0 <= k < indices@.len() ==> indices@[k] < i,
            indices@.len() <= i,
        decreases calls@.len() - i,
    {
        assert(all.take(i + 1).drop_last() =~= all.take(i as int));
        assert(all.take(i + 1).last() == calls@[i as int].name@);
        if name_matches(calls[i].name.as_str(), query) {
            indices.push(i);
        }
        assert(indices@.map_values(|i: usize| i as int) =~= matching_indices(all.take(i + 1), query@));
        i = i + 1;
    }
    assert(all.take(i as int) =~= all);
    indices
}

/// Rows with their top edge as an `int`.
pub open spec fn int_rows<T>(rows: Seq<(T, i32)>) -> Seq<(T, int)> {
    rows.map_values(|r: (T, i32)| (r.0, r.1 as int))
}

/// Rows `(row(indices[k]), top + header_h + k * row_h)` after a header at `top`, appended to `rows`.
fn push_calls_run(rows: &mut Vec<(CallsItem, i32)>, indices: &Vec<usize>, top: i32, header_h: i32, header: CallsItem, favorites: bool)
    requires
        0 <= top <= 0x100_0000,
        0 <= header_h <= 100,
        indices@.len() <= 48,
    ensures
        int_rows(final(rows)@) == int_rows(old(rows)@) + run_rows(indices@.map_values(|i: usize| i as int), top as int, header_h as int, CALLS_ROW_H as int,
            header, |i: int| if favorites { CallsItem::Favorite(i as usize) } else { CallsItem::Recent(i as usize) }),
{
    let ghost start = int_rows(rows@);
    let ghost ids = indices@.map_values(|i: usize| i as int);
    if indices.len() == 0 {
        assert(int_rows(rows@) =~= start + run_rows(ids, top as int, header_h as int, CALLS_ROW_H as int, header, |i: int| if favorites { CallsItem::Favorite(i as usize) } else { CallsItem::Recent(i as usize) }));
        return;
    }
    rows.push((header, top));
    let mut k: usize = 0;
    while k < indices.len()
        invariant
            0 <= k <= indices@.len(),
            indices@.len() <= 48,
            0 <= top <= 0x100_0000,
            0 <= header_h <= 100,
            ids == indices@.map_values(|i: usize| i as int),
            int_rows(rows@) == start + seq![(header, top as int)] + Seq::new(k as nat, |j: int| ((if favorites { CallsItem::Favorite(ids[j] as usize) } else { CallsItem::Recent(ids[j] as usize) }), top + header_h + j * CALLS_ROW_H)),
        decreases indices@.len() - k,
    {
        let i = indices[k];
        let item = if favorites { CallsItem::Favorite(i) } else { CallsItem::Recent(i) };
        let y: i32 = top + header_h + (k as i32) * CALLS_ROW_H;
        assert(item == (if favorites { CallsItem::Favorite(ids[k as int] as usize) } else { CallsItem::Recent(ids[k as int] as usize) }));
        let ghost before = rows@;
        rows.push((item, y));
        assert(int_rows(rows@) =~= int_rows(before).push((item, y as int)));
        assert(int_rows(rows@) =~= start + seq![(header, top as int)] + Seq::new((k + 1) as nat, |j: int| ((if favorites { CallsItem::Favorite(ids[j] as usize) } else { CallsItem::Recent(ids[j] as usize) }), top + header_h + j * CALLS_ROW_H)));
        k = k + 1;
    }
    assert(int_rows(rows@) =~= start + run_rows(ids, top as int, header_h as int, CALLS_ROW_H as int, header, |i: int| if favorites { CallsItem::Favorite(i as usize) } else { CallsItem::Recent(i as usize) }));
}

fn seen_stories(stories: &Vec<Item>, seen: bool) -> (indices: Vec<usize>)
    ensures
        indices@.map_values(|i: usize| i as int) == stories_seen(stories@, seen),
        indices@.len() <= stories@.len(),
{
    let mut indices: Vec<usize> = Vec::new();
    let mut i: usize = 0;
    while i < stories.len()
        invariant
            0 <= i <= stories@.len(),
            indices@.map_values(|i: usize| i as int) == stories_seen(stories@.take(i as int), seen),
            indices@.len() <= i,
        decreases stories@.len() - i,
    {
        assert(stories@.take(i + 1).drop_last() =~= stories@.take(i as int));
        if (stories[i].second == 0) == seen {
            indices.push(i);
        }
        assert(indices@.map_values(|i: usize| i as int) =~= stories_seen(stories@.take(i + 1), seen));
        i = i + 1;
    }
    assert(stories@.take(i as int) =~= stories@);
    indices
}

fn push_status_run(rows: &mut Vec<(StatusItem, i32)>, indices: &Vec<usize>, top: i32, header: StatusItem)
    requires
        0 <= top <= 0x100_0000,
        indices@.len() <= 48,
    ensures
        int_rows(final(rows)@) == int_rows(old(rows)@) + run_rows(indices@.map_values(|i: usize| i as int), top as int,
            STATUS_LABEL_H as int, STATUS_ROW_H as int, header, |i: int| StatusItem::Story(i as usize)),
{
    let ghost start = int_rows(rows@);
    let ghost ids = indices@.map_values(|i: usize| i as int);
    if indices.len() == 0 {
        assert(int_rows(rows@) =~= start + run_rows(ids, top as int, STATUS_LABEL_H as int, STATUS_ROW_H as int, header, |i: int| StatusItem::Story(i as usize)));
        return;
    }
    rows.push((header, top));
    let mut k: usize = 0;
    while k < indices.len()
        invariant
            0 <= k <= indices@.len(),
            indices@.len() <= 48,
            0 <= top <= 0x100_0000,
            ids == indices@.map_values(|i: usize| i as int),
            int_rows(rows@) == start + seq![(header, top as int)] + Seq::new(k as nat, |j: int| (StatusItem::Story(ids[j] as usize), top + STATUS_LABEL_H + j * STATUS_ROW_H)),
        decreases indices@.len() - k,
    {
        let y: i32 = top + STATUS_LABEL_H + (k as i32) * STATUS_ROW_H;
        let ghost before = rows@;
        rows.push((StatusItem::Story(indices[k]), y));
        assert(int_rows(rows@) =~= int_rows(before).push((StatusItem::Story(indices[k as int]), y as int)));
        assert(int_rows(rows@) =~= start + seq![(header, top as int)] + Seq::new((k + 1) as nat, |j: int| (StatusItem::Story(ids[j] as usize), top + STATUS_LABEL_H + j * STATUS_ROW_H)));
        k = k + 1;
    }
    assert(int_rows(rows@) =~= start + run_rows(ids, top as int, STATUS_LABEL_H as int, STATUS_ROW_H as int, header, |i: int| StatusItem::Story(i as usize)));
}

fn push_channel_rows(rows: &mut Vec<(ChannelsItem, i32)>, indices: &Vec<usize>, top: i32, row_h: i32, followed: bool)
    requires
        0 <= top <= 0x100_0000,
        0 <= row_h <= 100,
        indices@.len() <= 48,
    ensures
        int_rows(final(rows)@) == int_rows(old(rows)@) + Seq::new(indices@.len(), |k: int|
            (if followed { ChannelsItem::Followed(indices@[k]) } else { ChannelsItem::Suggestion(indices@[k]) }, top + k * row_h)),
{
    let ghost start = int_rows(rows@);
    let mut k: usize = 0;
    while k < indices.len()
        invariant
            0 <= k <= indices@.len(),
            indices@.len() <= 48,
            0 <= top <= 0x100_0000,
            0 <= row_h <= 100,
            int_rows(rows@) == start + Seq::new(k as nat, |j: int|
                (if followed { ChannelsItem::Followed(indices@[j]) } else { ChannelsItem::Suggestion(indices@[j]) }, top + j * row_h)),
        decreases indices@.len() - k,
    {
        assert((k as int) * row_h <= 48 * 100) by (nonlinear_arith)
            requires k < 48, 0 <= row_h <= 100;
        let y: i32 = top + (k as i32) * row_h;
        let item = if followed { ChannelsItem::Followed(indices[k]) } else { ChannelsItem::Suggestion(indices[k]) };
        let ghost before = rows@;
        rows.push((item, y));
        assert(int_rows(rows@) =~= int_rows(before).push((item, y as int)));
        assert(int_rows(rows@) =~= start + Seq::new((k + 1) as nat, |j: int|
            (if followed { ChannelsItem::Followed(indices@[j]) } else { ChannelsItem::Suggestion(indices@[j]) }, top + j * row_h)));
        k = k + 1;
    }
}

impl Chat {
    /// Visits the rows of the calls screen that match the search box, with their top edge in
    /// scrolling content coordinates (the list's own top is `CALLS_TOP`), and the content height.
    pub fn calls_place(&self) -> (placed: (Vec<(CallsItem, i32)>, i32))
        requires
            self.wf(),
        ensures
            (int_rows(placed.0@), placed.1 as int)
                == calls_layout(self.lists.favorites@, self.lists.calls@, self.boxes.search@.text),
            0 <= placed.1 <= 100_000,
    {
        let query = self.boxes.search.text();
        let f = matching_calls(&self.lists.favorites, query.as_str());
        let c = matching_calls(&self.lists.calls, query.as_str());
        let mut rows: Vec<(CallsItem, i32)> = Vec::new();
        push_calls_run(&mut rows, &f, CALLS_TOP, FAVORITES_HEADER_H, CallsItem::FavoritesHeader, true);
        let middle: i32 = if f.len() == 0 { CALLS_TOP } else { CALLS_TOP + FAVORITES_HEADER_H + (f.len() as i32) * CALLS_ROW_H };
        push_calls_run(&mut rows, &c, middle, RECENTS_HEADER_H, CallsItem::RecentsHeader, false);
        let end: i32 = if c.len() == 0 { middle } else { middle + RECENTS_HEADER_H + (c.len() as i32) * CALLS_ROW_H };
        proof {
            let fi = f@.map_values(|i: usize| i as int);
            let ci = c@.map_values(|i: usize| i as int);
            assert(int_rows(rows@) =~= calls_layout(self.lists.favorites@, self.lists.calls@, self.boxes.search@.text).0);
        }
        (rows, end)
    }

    /// Rows of the status screen with their top edge in content coordinates, and the content height.
    pub fn status_place(&self) -> (placed: (Vec<(StatusItem, i32)>, i32))
        requires
            self.wf(),
        ensures
            (int_rows(placed.0@), placed.1 as int) == status_layout(self.lists.stories@),
            0 <= placed.1 <= 100_000,
    {
        let recent = seen_stories(&self.lists.stories, false);
        let seen = seen_stories(&self.lists.stories, true);
        let mut rows: Vec<(StatusItem, i32)> = Vec::new();
        rows.push((StatusItem::Mine, HEADER_H));
        push_status_run(&mut rows, &recent, STATUS_TOP, StatusItem::RecentLabel);
        let middle: i32 = if recent.len() == 0 { STATUS_TOP } else { STATUS_TOP + STATUS_LABEL_H + (recent.len() as i32) * STATUS_ROW_H };
        push_status_run(&mut rows, &seen, middle, StatusItem::SeenLabel);
        let end: i32 = if seen.len() == 0 { middle } else { middle + STATUS_LABEL_H + (seen.len() as i32) * STATUS_ROW_H };
        assert(int_rows(rows@) =~= status_layout(self.lists.stories@).0);
        (rows, end)
    }

    /// Rows of the channels screen, with their top edge, and the content height.
    pub fn channels_place(&self) -> (placed: (Vec<(ChannelsItem, i32)>, i32))
        requires
            self.wf(),
        ensures
            (int_rows(placed.0@), placed.1 as int) == channels_layout(self.lists.channels@, self.lists.suggestions@, self.boxes.search@.text),
            0 <= placed.1 <= 100_000,
    {
        let query = self.boxes.search.text();
        let f = matching_items(&self.lists.channels, query.as_str());
        let s = matching_items(&self.lists.suggestions, query.as_str());
        let mut rows: Vec<(ChannelsItem, i32)> = Vec::new();
        push_channel_rows(&mut rows, &f, CALLS_TOP, CHANNEL_ROW_H, true);
        let header: i32 = CALLS_TOP + (f.len() as i32) * CHANNEL_ROW_H;
        let ghost first = int_rows(rows@);
        rows.push((ChannelsItem::SuggestionsHeader, header));
        assert(int_rows(rows@) =~= first.push((ChannelsItem::SuggestionsHeader, header as int)));
        let ghost second = int_rows(rows@);
        push_channel_rows(&mut rows, &s, header + SUGGESTIONS_HEADER_H, SUGGESTION_ROW_H, false);
        let bar: i32 = header + SUGGESTIONS_HEADER_H + (s.len() as i32) * SUGGESTION_ROW_H;
        let ghost third = int_rows(rows@);
        rows.push((ChannelsItem::DiscoverBar, bar));
        assert(int_rows(rows@) =~= third.push((ChannelsItem::DiscoverBar, bar as int)));
        proof {
            let fi = f@.map_values(|i: usize| i as int);
            let si = s@.map_values(|i: usize| i as int);
            assert(Seq::new(f@.len(), |k: int| (ChannelsItem::Followed(f@[k]), CALLS_TOP + k * CHANNEL_ROW_H))
                =~= Seq::new(fi.len(), |k: int| (ChannelsItem::Followed(fi[k] as usize), CALLS_TOP + k * CHANNEL_ROW_H)));
            assert(Seq::new(s@.len(), |k: int| (ChannelsItem::Suggestion(s@[k]), (header + SUGGESTIONS_HEADER_H) + k * SUGGESTION_ROW_H))
                =~= Seq::new(si.len(), |k: int| (ChannelsItem::Suggestion(si[k] as usize), header + SUGGESTIONS_HEADER_H + k * SUGGESTION_ROW_H)));
            assert(int_rows(rows@) =~= channels_layout(self.lists.channels@, self.lists.suggestions@, self.boxes.search@.text).0);
        }
        (rows, bar + DISCOVER_BAR_H)
    }

    pub fn settings_height(&self) -> (height: i32)
        ensures
            height == settings_content(),
    {
        SETTINGS_ROWS_TOP + SETTINGS_ENTRY_COUNT * SETTINGS_ROW_H + SETTINGS_LOGOUT_H + 24
    }

    /// Rows of the new-conversation panel with their top edge in content coordinates. While
    /// searching, only the matching contacts show. Returns the content height too.
    pub fn contacts_place(&self) -> (placed: (Vec<(ContactsItem, i32)>, i32))
        requires
            self.wf(),
        ensures
            (int_rows(placed.0@), placed.1 as int) == contacts_layout(self.lists.contacts@, self.boxes.search@.text),
            0 <= placed.1 <= 100_000,
    {
        let query = self.boxes.search.text();
        let mut rows: Vec<(ContactsItem, i32)> = Vec::new();
        let mut y: i32 = NEW_CHAT_TOP;
        let ghost empty = query@.len() == 0;
        if query.unicode_len() == 0 {
            let mut index: usize = 0;
            while index < NEW_CHAT_ACTION_COUNT
                invariant
                    0 <= index <= NEW_CHAT_ACTION_COUNT,
                    y == NEW_CHAT_TOP + index * NEW_CHAT_ACTION_H,
                    int_rows(rows@) == Seq::new(index as nat, |k: int| (ContactsItem::Action(k as usize), NEW_CHAT_TOP + k * NEW_CHAT_ACTION_H)),
                decreases NEW_CHAT_ACTION_COUNT - index,
            {
                let ghost before = rows@;
                rows.push((ContactsItem::Action(index), y));
                assert(int_rows(rows@) =~= int_rows(before).push((ContactsItem::Action(index), y as int)));
                assert(int_rows(rows@) =~= Seq::new((index + 1) as nat, |k: int| (ContactsItem::Action(k as usize), NEW_CHAT_TOP + k * NEW_CHAT_ACTION_H)));
                y = y + NEW_CHAT_ACTION_H;
                index = index + 1;
            }
            let ghost before = rows@;
            rows.push((ContactsItem::Myself, NEW_CHAT_SELF_TOP));
            assert(int_rows(rows@) =~= int_rows(before).push((ContactsItem::Myself, NEW_CHAT_SELF_TOP as int)));
            y = NEW_CHAT_SELF_TOP + NEW_CHAT_ROW_H;
        }
        let ghost top = int_rows(rows@);
        let mut digits: [u8; PHONE_DIGITS] = [0; PHONE_DIGITS];
        if phone_digits(query.as_str(), &mut digits).is_some() {
            let ghost before = rows@;
            rows.push((ContactsItem::Number, y));
            assert(int_rows(rows@) =~= int_rows(before).push((ContactsItem::Number, y as int)));
            y = y + NEW_CHAT_ROW_H;
        }
        let ghost head = int_rows(rows@);
        let ghost y2 = y as int;
        let indices = matching_items(&self.lists.contacts, query.as_str());
        let ghost ids = indices@.map_values(|i: usize| i as int);
        let mut letter: char = '\0';
        let mut k: usize = 0;
        assert(ids.skip(0) =~= ids);
        while k < indices.len()
            invariant
                0 <= k <= indices@.len(),
                indices@.len() <= self.lists.contacts@.len(),
                self.lists.contacts@.len() <= 40,
                forall|j: int| 0 <= j < indices@.len() ==> indices@[j] < self.lists.contacts@.len(),
                ids == indices@.map_values(|i: usize| i as int),
                NEW_CHAT_TOP <= y <= 467 + 144 * (k as int),
                k <= 40,
                int_rows(rows@).take(head.len() as int) == head,
                int_rows(rows@).len() >= head.len(),
                ({
                    let (rest, end) = contact_rows(self.lists.contacts@, ids.skip(k as int), letter, y as int);
                    let (all, all_end) = contact_rows(self.lists.contacts@, ids, '\0', y2);
                    int_rows(rows@).skip(head.len() as int) + rest == all && end == all_end
                }),
            decreases indices@.len() - k,
        {
            let index = indices[k];
            let initial = initial_of(self.lists.contacts[index].name.as_str());
            assert(ids.skip(k as int)[0] == index as int);
            assert(ids.skip(k as int).drop_first() =~= ids.skip(k + 1));
            let ghost before = int_rows(rows@);
            let ghost old_y = y as int;
            let ghost old_letter = letter;
            let ghost added: Seq<(ContactsItem, int)>;
            if initial != letter {
                letter = initial;
                rows.push((ContactsItem::Letter(letter), y));
                y = y + NEW_CHAT_ROW_H;
                rows.push((ContactsItem::Contact(index), y));
                y = y + NEW_CHAT_ROW_H;
                proof {
                    added = seq![(ContactsItem::Letter(initial), old_y), (ContactsItem::Contact(index), old_y + NEW_CHAT_ROW_H)];
                }
            } else {
                rows.push((ContactsItem::Contact(index), y));
                y = y + NEW_CHAT_ROW_H;
                proof {
                    added = seq![(ContactsItem::Contact(index), old_y)];
                }
            }
            proof {
                assert(int_rows(rows@) =~= before + added);
                assert(int_rows(rows@).take(head.len() as int) =~= before.take(head.len() as int));
                assert(int_rows(rows@).skip(head.len() as int) =~= before.skip(head.len() as int) + added);
                let (rest, end) = contact_rows(self.lists.contacts@, ids.skip(k as int), old_letter, old_y);
                let (rest2, end2) = contact_rows(self.lists.contacts@, ids.skip(k + 1), letter, y as int);
                assert(rest == added + rest2 && end == end2);
            }
            k = k + 1;
        }
        proof {
            assert(ids.skip(k as int) =~= Seq::<int>::empty());
            let q = self.boxes.search@.text;
            let spec_top: Seq<(ContactsItem, int)> = if q.len() == 0 {
                Seq::new(NEW_CHAT_ACTION_COUNT as nat, |k: int| (ContactsItem::Action(k as usize), NEW_CHAT_TOP + k * NEW_CHAT_ACTION_H))
                    + seq![(ContactsItem::Myself, NEW_CHAT_SELF_TOP as int)]
            } else {
                Seq::empty()
            };
            assert(top =~= spec_top);
            assert(int_rows(rows@) =~= head + int_rows(rows@).skip(head.len() as int));
            assert(int_rows(rows@) =~= contacts_layout(self.lists.contacts@, self.boxes.search@.text).0);
        }
        (rows, y)
    }

    /// How many messages are marked as favourites.
    pub fn starred_count(&self) -> (count: usize)
        requires
            self.wf(),
        ensures
            count == starred_indices(self.store.messages@).len(),
            count <= 384,
    {
        let messages = &self.store.messages;
        let mut count: usize = 0;
        let mut i: usize = 0;
        while i < messages.len()
            invariant
                0 <= i <= messages@.len(),
                messages@.len() <= 384,
                count == starred_indices(messages@.take(i as int)).len(),
                count <= i,
            decreases messages@.len() - i,
        {
            assert(messages@.take(i + 1).drop_last() =~= messages@.take(i as int));
            if messages[i].starred {
                count = count + 1;
            }
            i = i + 1;
        }
        assert(messages@.take(i as int) =~= messages@);
        count
    }

    /// The `nth` favourite message (newest first), by its number among all the messages.
    pub fn starred_nth(&self, nth: usize) -> (index: Option<usize>)
        requires
            self.wf(),
        ensures
            index is Some ==> nth < starred_indices(self.store.messages@).len()
                && index->0 == starred_indices(self.store.messages@)[starred_indices(self.store.messages@).len() - 1 - nth],
            index is None ==> nth >= starred_indices(self.store.messages@).len(),
    {
        let messages = &self.store.messages;
        let ghost all = starred_indices(messages@);
        let mut seen: usize = 0;
        let mut i: usize = messages.len();
        proof { lemma_starred_indices(messages@); }
        assert(messages@.take(i as int) =~= messages@);
        assert(all.take(all.len() - 0) =~= all);
        while i > 0
            invariant
                0 <= i <= messages@.len(),
                messages@ == self.store.messages@,
                all == starred_indices(messages@),
                seen <= nth,
                starred_indices(messages@.take(i as int)).len() + seen == all.len(),
                starred_indices(messages@.take(i as int)) == all.take(all.len() - seen),
                forall|j: int| 0 <= j < all.len() ==> 0 <= #[trigger] all[j] < messages@.len(),
            decreases i,
        {
            let ghost prefix = messages@.take(i as int);
            assert(messages@.take(i as int).drop_last() =~= messages@.take(i - 1));
            if messages[i - 1].starred {
                assert(prefix.last() == messages@[i - 1]);
                assert(starred_indices(prefix) == starred_indices(prefix.drop_last()).push(i - 1));
                let ghost shown = all.take(all.len() - seen);
                assert(shown[shown.len() - 1] == i - 1);
                if seen == nth {
                    assert(shown.len() == all.len() - seen);
                    assert(nth < all.len());
                    assert(all[all.len() - 1 - nth] == i - 1);
                    let found: usize = i - 1;
                    assert(found == all[all.len() - 1 - nth]);
                    return Some(found);
                }
                assert(all.take(all.len() - seen).drop_last() =~= all.take(all.len() - seen - 1));
                seen = seen + 1;
            }
            i = i - 1;
        }
        assert(messages@.take(0) =~= Seq::<crate::items::Message>::empty());
        None
    }

    /// How far the panel that replaces the conversation list scrolls: its content less the window.
    pub fn max_panel_scroll(&self) -> (max: i32)
        requires
            self.wf(),
        ensures
            max == overflow(panel_content(self), self.scroll.window_height as int),
            0 <= max <= 100_000,
    {
        let content: i32 = match self.screen.tab {
            Tab::Calls => self.calls_place().1,
            Tab::Status => self.status_place().1,
            Tab::Channels => self.channels_place().1,
            Tab::Settings => self.settings_height(),
            Tab::Chats => {
                if self.screen.new_chat {
                    self.contacts_place().1
                } else if self.screen.starred_open {
                    HEADER_H + (self.starred_count() as i32) * STARRED_ROW_H
                } else {
                    0
                }
            },
        };
        if content - self.scroll.window_height > 0 { content - self.scroll.window_height } else { 0 }
    }

    /// How far the conversation list scrolls.
    pub fn max_list_scroll(&self) -> (max: i32)
        requires
            self.wf(),
        ensures
            max == overflow(self.store.visible@.len() * ROW_H, self.scroll.window_height - LIST_TOP),
            0 <= max <= 100_000,
    {
        let content: i32 = (self.store.visible.len() as i32) * ROW_H;
        let room: i32 = self.scroll.window_height - LIST_TOP;
        if content - room > 0 { content - room } else { 0 }
    }

    /// The list of conversations in order, for the search box and the filter chip.
    pub fn visible_order(&self) -> (visible: Vec<u8>)
        requires
            self.wf(),
        ensures
            list_order(self.store.conversations@, self.screen.unread_only, self.boxes.search@.text, visible@),
            visible@.len() <= MAX_CHATS,
    {
        let query = self.boxes.search.text();
        let conversations = &self.store.conversations;
        let unread_only = self.screen.unread_only;
        let mut visible: Vec<u8> = Vec::new();
        let mut index: usize = 0;
        while index < MAX_CHATS
            invariant
                0 <= index <= MAX_CHATS,
                conversations@.len() == MAX_CHATS,
                query@ == self.boxes.search@.text,
                conversations@ == self.store.conversations@,
                unread_only == self.screen.unread_only,
                visible@.len() <= index,
                forall|i: int, j: int| 0 <= i < j < visible@.len() ==> list_before(conversations@, visible@[i] as int, visible@[j] as int),
                forall|k: int| 0 <= k < index ==> (shown(conversations@[k], unread_only, query@) <==> visible@.contains(k as u8)),
                forall|i: int| 0 <= i < visible@.len() ==> (#[trigger] visible@[i] as int) < index,
            decreases MAX_CHATS - index,
        {
            let conversation = &conversations[index];
            if conversation.used && (!unread_only || conversation.unread > 0) && name_matches(conversation.name.as_str(), query.as_str()) {
                let rank = conversation.rank;
                let mut at: usize = visible.len();
                while at > 0 && conversations[visible[at - 1] as usize].rank < rank
                    invariant
                        0 <= at <= visible@.len(),
                        conversations@.len() == MAX_CHATS,
                        rank == conversations@[index as int].rank,
                        forall|i: int| 0 <= i < visible@.len() ==> (#[trigger] visible@[i] as int) < index,
                        index < MAX_CHATS,
                        forall|i: int| at <= i < visible@.len() ==> conversations@[visible@[i] as int].rank < rank,
                    decreases at,
                {
                    at = at - 1;
                }
                let ghost before = visible@;
                proof {
                    assert forall|i: int| 0 <= i < at implies conversations@[before[i] as int].rank >= rank by {
                        if conversations@[before[i] as int].rank < rank {
                            if i < at - 1 {
                                assert(list_before(conversations@, before[i] as int, before[at - 1] as int));
                            }
                        }
                    }
                }
                visible.insert(at, index as u8);
                proof {
                    assert forall|i: int, j: int| 0 <= i < j < visible@.len() implies list_before(conversations@, visible@[i] as int, visible@[j] as int) by {
                        if i < at && j == at {
                            assert(conversations@[before[i] as int].rank >= rank);
                            assert((before[i] as int) < index);
                        } else if i == at && j > at {
                            assert(conversations@[before[j - 1] as int].rank < rank);
                        } else if i < at && j > at {
                            assert(list_before(conversations@, before[i] as int, before[j - 1] as int));
                        } else if i > at {
                            assert(list_before(conversations@, before[i - 1] as int, before[j - 1] as int));
                        }
                    }
                    assert forall|k: int| 0 <= k < index + 1 implies (shown(conversations@[k], unread_only, query@) <==> visible@.contains(k as u8)) by {
                        if k < index {
                            if before.contains(k as u8) {
                                let w = choose|w: int| 0 <= w < before.len() && before[w] == k as u8;
                                assert(visible@[if w < at { w } else { w + 1 }] == k as u8);
                            }
                            if visible@.contains(k as u8) {
                                let w = choose|w: int| 0 <= w < visible@.len() && visible@[w] == k as u8;
                                assert(w != at);
                                assert(before[if w < at { w } else { w - 1 }] == k as u8);
                            }
                        } else {
                            assert(visible@[at as int] == index as u8);
                        }
                    }
                }
            } else {
                proof {
                    assert forall|k: int| 0 <= k < index + 1 implies (shown(conversations@[k], unread_only, query@) <==> visible@.contains(k as u8)) by {
                        if k == index && visible@.contains(k as u8) {
                            let w = choose|w: int| 0 <= w < visible@.len() && visible@[w] == k as u8;
                            assert((visible@[w] as int) < index);
                        }
                    }
                }
            }
            index = index + 1;
        }
        visible
    }

    /// Asks the core for the contacts that match the search box (`CONTACTS<TAB>query`).
    pub fn request_contacts(&mut self)
        ensures
            sent(old(self).outbox@, final(self).outbox@, "CONTACTS\t"@ + old(self).boxes.search@.text),
            *final(self) == (Chat { outbox: final(self).outbox, ..*old(self) }),
    {
        let mut line = chars_of("CONTACTS\t");
        let query = self.boxes.search.text();
        let mut rest = chars_of(query.as_str());
        line.append(&mut rest);
        proof { reveal_strlit("CONTACTS\t"); }
        self.tell_core(string_of(line.as_slice()));
    }

    /// The list follows the search box and the filter chip; the scroll offsets stay in range; the
    /// new-conversation panel asks the core for the matching contacts.
    pub fn update_visible(&mut self)
        requires
            old(self).wf(),
        ensures
            final(self).wf(),
            list_order(old(self).store.conversations@, old(self).screen.unread_only, old(self).boxes.search@.text, final(self).store.visible@),
            final(self).scroll.list == smaller(old(self).scroll.list as int,
                overflow(final(self).store.visible@.len() * ROW_H, old(self).scroll.window_height - LIST_TOP)),
            final(self).scroll.panel == smaller(old(self).scroll.panel as int, overflow(panel_content(old(self)), old(self).scroll.window_height as int)),
            old(self).screen.new_chat ==> sent(old(self).outbox@, final(self).outbox@, "CONTACTS\t"@ + old(self).boxes.search@.text),
            !old(self).screen.new_chat ==> final(self).outbox == old(self).outbox,
            *final(self) == (Chat {
                store: Store { visible: final(self).store.visible, ..old(self).store },
                scroll: Scroll { list: final(self).scroll.list, panel: final(self).scroll.panel, ..old(self).scroll },
                outbox: final(self).outbox,
                ..*old(self)
            }),
    {
        let visible = self.visible_order();
        self.store.visible = visible;
        let max_list = self.max_list_scroll();
        if max_list < self.scroll.list {
            self.scroll.list = max_list;
        }
        let max_panel = self.max_panel_scroll();
        assert(panel_content(self) == panel_content(old(self)));
        if max_panel < self.scroll.panel {
            self.scroll.panel = max_panel;
        }
        if self.screen.new_chat {
            self.request_contacts();
        }
    }
}

/// The numbers of the favourite messages, oldest first.
pub open spec fn starred_indices(messages: Seq<crate::items::Message>) -> Seq<int>
    decreases messages.len(),
{
    if messages.len() == 0 {
        Seq::empty()
    } else {
        let before = starred_indices(messages.drop_last());
        if messages.last().starred { before.push(messages.len() - 1) } else { before }
    }
}

pub proof fn lemma_starred_indices(messages: Seq<crate::items::Message>)
    ensures
        forall|j: int| 0 <= j < starred_indices(messages).len() ==> 0 <= #[trigger] starred_indices(messages)[j] < messages.len(),
        starred_indices(messages).len() <= messages.len(),
    decreases messages.len(),
{
    if messages.len() > 0 {
        lemma_starred_indices(messages.drop_last());
    }
}

/// The height of the panel's content for the tab that shows.
pub open spec fn panel_content(chat: &Chat) -> int {
    match chat.screen.tab {
        Tab::Calls => calls_layout(chat.lists.favorites@, chat.lists.calls@, chat.boxes.search@.text).1,
        Tab::Status => status_layout(chat.lists.stories@).1,
        Tab::Channels => channels_layout(chat.lists.channels@, chat.lists.suggestions@, chat.boxes.search@.text).1,
        Tab::Settings => settings_content(),
        Tab::Chats => if chat.screen.new_chat {
            contacts_layout(chat.lists.contacts@, chat.boxes.search@.text).1
        } else if chat.screen.starred_open {
            HEADER_H + starred_indices(chat.store.messages@).len() * STARRED_ROW_H
        } else {
            0
        },
    }
}

} // verus!

verus! {

/// `value` brought within `low..=high` (`high` wins when the range is empty, as `clamp` would not allow).
/// What `update_visible` does: the list follows the search box and the filter chip, the scroll
/// offsets stay in range, and the new-conversation panel asks the core for the matching contacts.
pub open spec fn visible_updated(prior: Chat, next: Chat) -> bool {
    &&& list_order(prior.store.conversations@, prior.screen.unread_only, prior.boxes.search@.text, next.store.visible@)
    &&& next.scroll.list == smaller(prior.scroll.list as int, overflow(next.store.visible@.len() * ROW_H, prior.scroll.window_height - LIST_TOP))
    &&& next.scroll.panel == smaller(prior.scroll.panel as int, overflow(panel_content(&prior), prior.scroll.window_height as int))
    &&& prior.screen.new_chat ==> sent(prior.outbox@, next.outbox@, "CONTACTS\t"@ + prior.boxes.search@.text)
    &&& !prior.screen.new_chat ==> next.outbox == prior.outbox
    &&& next == (Chat { store: Store { visible: next.store.visible, ..prior.store },
        scroll: Scroll { list: next.scroll.list, panel: next.scroll.panel, ..prior.scroll }, outbox: next.outbox, ..prior })
}

pub open spec fn clamped(value: int, low: int, high: int) -> int {
    if value < low { low } else if value > high { high } else { value }
}

/// The favourite messages closed.
pub open spec fn starred_closed(prior: Chat, next: Chat) -> bool {
    &&& next == (Chat { screen: Screen { starred_open: false, ..prior.screen },
        scroll: Scroll { panel: 0, ..prior.scroll }, ..prior })
}

/// The new-conversation panel closed.
pub open spec fn new_chat_closed(prior: Chat, next: Chat) -> bool {
    &&& next.screen == (Screen { new_chat: false, focus: Focus::Message, ..prior.screen })
    &&& next.boxes.search@ == empty_field()
    &&& next.boxes == (Boxes { search: next.boxes.search, ..prior.boxes })
    &&& list_order(prior.store.conversations@, prior.screen.unread_only, Seq::empty(), next.store.visible@)
    &&& next.outbox == prior.outbox
    &&& next == (Chat { screen: next.screen, boxes: next.boxes,
        store: Store { visible: next.store.visible, ..prior.store },
        scroll: Scroll { list: next.scroll.list, panel: next.scroll.panel, ..prior.scroll },
        ..prior })
}

/// The new-conversation panel opened; the contacts are asked for.
pub open spec fn new_chat_opened(prior: Chat, next: Chat) -> bool {
    &&& next.screen == (Screen { new_chat: true, focus: Focus::Search, ..prior.screen })
    &&& next.boxes.search@ == empty_field()
    &&& next.boxes == (Boxes { search: next.boxes.search, ..prior.boxes })
    &&& list_order(prior.store.conversations@, prior.screen.unread_only, Seq::empty(), next.store.visible@)
    &&& sent(prior.outbox@, next.outbox@, "CONTACTS\t"@)
    &&& next == (Chat { screen: next.screen, boxes: next.boxes,
        store: Store { visible: next.store.visible, ..prior.store },
        scroll: Scroll { list: next.scroll.list, panel: next.scroll.panel, ..prior.scroll },
        outbox: next.outbox, ..prior })
}

/// The rail tab switched to `tab`.
pub open spec fn tab_set(prior: Chat, next: Chat, tab: Tab) -> bool {
    &&& tab == prior.screen.tab ==> next == prior
    &&& tab != prior.screen.tab ==> ({
        &&& next.screen == (Screen { tab, menu_open: false, starred_open: false, new_chat: false, focus: Focus::Message, ..prior.screen })
        &&& next.call == (crate::screen::CallScreen { dialpad_open: false, ..prior.call })
        &&& next.marks == (crate::screen::Marks { picker_open: false, ..prior.marks })
        &&& next.boxes.search@ == empty_field()
        &&& next.boxes == (Boxes { search: next.boxes.search, ..prior.boxes })
        &&& list_order(prior.store.conversations@, prior.screen.unread_only, Seq::empty(), next.store.visible@)
        &&& next.scroll.panel == 0
        &&& next.outbox == prior.outbox
        &&& next == (Chat { screen: next.screen, call: next.call, marks: next.marks,
            boxes: next.boxes, store: Store { visible: next.store.visible, ..prior.store },
            scroll: Scroll { list: next.scroll.list, panel: 0, ..prior.scroll }, ..prior })
    })
}

/// The favourite messages opened.
pub open spec fn starred_opened(prior: Chat, next: Chat) -> bool {
    &&& next.boxes.search@ == empty_field()
    &&& next.boxes == (Boxes { search: next.boxes.search, ..prior.boxes })
    &&& next == (Chat { screen: Screen { starred_open: true, focus: Focus::Message, ..prior.screen },
        scroll: Scroll { panel: 0, ..prior.scroll }, boxes: next.boxes, ..prior })
}

/// Only the conversations with unread messages shown, or all again.
pub open spec fn unread_only_set(prior: Chat, next: Chat, unread_only: bool) -> bool {
    &&& next.screen == (Screen { unread_only, ..prior.screen })
    &&& list_order(prior.store.conversations@, unread_only, prior.boxes.search@.text, next.store.visible@)
    &&& prior.screen.new_chat ==> sent(prior.outbox@, next.outbox@, "CONTACTS\t"@ + prior.boxes.search@.text)
    &&& !prior.screen.new_chat ==> next.outbox == prior.outbox
    &&& next == (Chat { screen: next.screen, store: Store { visible: next.store.visible, ..prior.store },
        scroll: Scroll { list: next.scroll.list, panel: next.scroll.panel, ..prior.scroll },
        outbox: next.outbox, ..prior })
}

/// The conversation list scrolled by `notches` of the wheel, within its content.
pub open spec fn list_scrolled(prior: Chat, next: Chat, notches: i32) -> bool {
    &&& next.scroll.list == clamped(prior.scroll.list + notches * LIST_SCROLL_STEP, 0,
        overflow(prior.store.visible@.len() * ROW_H, prior.scroll.window_height - LIST_TOP))
    &&& next == (Chat { scroll: Scroll { list: next.scroll.list, ..prior.scroll }, ..prior })
}

/// The panel that replaces the list scrolled by `notches` of the wheel, within its content.
pub open spec fn panel_scrolled(prior: Chat, next: Chat, notches: i32) -> bool {
    &&& next.scroll.panel == clamped(prior.scroll.panel + notches * LIST_SCROLL_STEP, 0,
        overflow(panel_content(&prior), prior.scroll.window_height as int))
    &&& next == (Chat { scroll: Scroll { panel: next.scroll.panel, ..prior.scroll }, ..prior })
}

impl Chat {
    /// The core is about to send the contacts that match the search box.
    pub fn clear_contacts(&mut self)
        requires
            old(self).wf(),
        ensures
            final(self).wf(),
            final(self).lists.contacts@.len() == 0,
            final(self).scroll.panel == smaller(old(self).scroll.panel as int, overflow(panel_content(final(self)), old(self).scroll.window_height as int)),
            *final(self) == (Chat { lists: crate::screen::Lists { contacts: final(self).lists.contacts, ..old(self).lists },
                scroll: Scroll { panel: final(self).scroll.panel, ..old(self).scroll }, ..*old(self) }),
    {
        self.lists.contacts = Vec::new();
        let max = self.max_panel_scroll();
        if max < self.scroll.panel {
            self.scroll.panel = max;
        }
    }

    /// Opens the new-conversation panel with an empty search box that has the caret.
    pub fn open_new_chat(&mut self)
        requires
            old(self).wf(),
        ensures
            final(self).wf(),
            new_chat_opened(*old(self), *final(self)),
    {
        self.screen.new_chat = true;
        self.scroll.panel = 0;
        self.boxes.search.clear();
        self.screen.focus = Focus::Search;
        self.update_visible();
        assert("CONTACTS\t"@ + Seq::<char>::empty() =~= "CONTACTS\t"@);
    }

    /// Closes the new-conversation panel; the search box empties.
    pub fn close_new_chat(&mut self)
        requires
            old(self).wf(),
        ensures
            final(self).wf(),
            new_chat_closed(*old(self), *final(self)),
    {
        self.screen.new_chat = false;
        self.scroll.panel = 0;
        self.boxes.search.clear();
        self.screen.focus = Focus::Message;
        self.update_visible();
    }

    /// Switches the rail tab; the search box starts empty on each one.
    pub fn set_tab(&mut self, tab: Tab)
        requires
            old(self).wf(),
        ensures
            final(self).wf(),
            tab_set(*old(self), *final(self), tab),
    {
        if tab == self.screen.tab {
            return;
        }
        self.screen.tab = tab;
        self.call.dialpad_open = false;
        self.screen.menu_open = false;
        self.screen.starred_open = false;
        self.screen.new_chat = false;
        self.scroll.panel = 0;
        self.boxes.search.clear();
        self.screen.focus = Focus::Message;
        self.marks.picker_open = false;
        self.update_visible();
    }

    /// Scrolls the panel that replaces the list by `notches` of the wheel, within its content.
    pub fn scroll_panel(&mut self, notches: i32)
        requires
            old(self).wf(),
            -0x10_0000 <= notches <= 0x10_0000,
        ensures
            final(self).wf(),
            panel_scrolled(*old(self), *final(self), notches),
    {
        let max = self.max_panel_scroll();
        let wanted = self.scroll.panel + notches * LIST_SCROLL_STEP;
        self.scroll.panel = if wanted < 0 { 0 } else if wanted > max { max } else { wanted };
    }

    /// Scrolls the conversation list by `notches` of the wheel, within its content.
    pub fn scroll_list(&mut self, notches: i32)
        requires
            old(self).wf(),
            -0x10_0000 <= notches <= 0x10_0000,
        ensures
            final(self).wf(),
            list_scrolled(*old(self), *final(self), notches),
    {
        let max = self.max_list_scroll();
        let wanted = self.scroll.list + notches * LIST_SCROLL_STEP;
        self.scroll.list = if wanted < 0 { 0 } else if wanted > max { max } else { wanted };
    }

    /// Shows only the conversations with unread messages, or all of them again.
    pub fn set_unread_only(&mut self, unread_only: bool)
        requires
            old(self).wf(),
        ensures
            final(self).wf(),
            unread_only_set(*old(self), *final(self), unread_only),
    {
        self.screen.unread_only = unread_only;
        self.update_visible();
    }

    // ---- favourite messages

    /// Opens the panel of favourite messages, at its top.
    pub fn open_starred(&mut self)
        requires
            old(self).wf(),
        ensures
            final(self).wf(),
            starred_opened(*old(self), *final(self)),
    {
        self.screen.starred_open = true;
        self.scroll.panel = 0;
        self.boxes.search.clear();
        self.screen.focus = Focus::Message;
    }

    pub fn close_starred(&mut self)
        ensures
            starred_closed(*old(self), *final(self)),
    {
        self.screen.starred_open = false;
        self.scroll.panel = 0;
    }
}

} // verus!
