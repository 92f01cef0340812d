//! The library projection: every item, rebuilt by folding the event log.

use crate::bookmarks::{
    bookmark_entries, bookmark_ids, insert_bookmark, index_of, has_key, new_bookmark_map,
    remove_key, shift_remove_bookmark, sort_bookmarks_by_position, sorted_by_position,
    stable_sort_by_position, unique_keys, upsert, get_bookmark, Bookmark, BookmarkView, Entries,
};
use crate::event::{Event, EventWithMetadata, UtcDateTime};
use indexmap::IndexMap;
use std::collections::HashMap;
use vstd::prelude::*;
use vstd::string::StringExecFns;

verus! {

broadcast use vstd::std_specs::hash::group_hash_axioms;

/// Where the audio files of the library are served from.
pub const STORAGE_URL: &'static str = "https://reitunes.blob.core.windows.net/music/";

/// One item of the library, as the fold has made it.
#[derive(Clone, Debug, PartialEq)]
pub struct LibraryItem {
    pub id: u128,
    pub name: String,
    pub created_time_utc: UtcDateTime,
    pub file_path: String,
    pub artist: String,
    pub album: String,
    pub play_count: u32,
    pub bookmarks: IndexMap<u128, Bookmark>,
}

/// What a library item holds, as mathematical values.
pub struct ItemView {
    pub id: u128,
    pub name: Seq<char>,
    pub created_time_utc: UtcDateTime,
    pub file_path: Seq<char>,
    pub artist: Seq<char>,
    pub album: Seq<char>,
    pub play_count: u32,
    pub bookmarks: Entries,
}

impl View for LibraryItem {
    type V = ItemView;

    open spec fn view(&self) -> ItemView {
        ItemView {
            id: self.id,
            name: self.name@,
            created_time_utc: self.created_time_utc,
            file_path: self.file_path@,
            artist: self.artist@,
            album: self.album@,
            play_count: self.play_count,
            bookmarks: bookmark_entries(self.bookmarks),
        }
    }
}

/// Bookmarks have distinct ids and ascend by position.
pub open spec fn item_wf(v: ItemView) -> bool {
    unique_keys(v.bookmarks) && sorted_by_position(v.bookmarks)
}

/// The emoji given to a new bookmark, chosen by position in the palette.
pub open spec fn music_emoji(i: u128) -> Seq<char> {
    if i == 0 { "🎵"@ }
    else if i == 1 { "🎶"@ }
    else if i == 2 { "🎼"@ }
    else if i == 3 { "🎧"@ }
    else if i == 4 { "🎤"@ }
    else if i == 5 { "🎹"@ }
    else if i == 6 { "🎷"@ }
    else if i == 7 { "🎺"@ }
    else if i == 8 { "🎸"@ }
    else if i == 9 { "🥁"@ }
    else if i == 10 { "🪕"@ }
    else { "🎻"@ }
}

/// Number of emoji in the palette.
pub const PALETTE_LEN: u128 = 12;

/// The emoji of bookmark `bookmark_id` on item `item_id`: a function of the two
/// ids alone, so that every replay assigns the same one.
pub open spec fn emoji_for(item_id: u128, bookmark_id: u128) -> Seq<char> {
    music_emoji((item_id ^ bookmark_id) % PALETTE_LEN)
}

/// The text of an optional field, empty when absent.
pub open spec fn text_or_empty(s: Option<String>) -> Seq<char> {
    match s {
        Some(t) => t@,
        None => Seq::empty(),
    }
}

/// The effect of one event on the items of a library.
pub open spec fn apply_event(items: Map<u128, ItemView>, e: EventWithMetadata) -> Map<u128, ItemView> {
    let id = e.aggregate_id;
    match e.event {
        Event::LibraryItemCreatedEvent { name, artist, album, file_path } => items.insert(
            id,
            ItemView {
                id,
                name: name@,
                created_time_utc: e.created_time_utc,
                file_path: file_path@,
                artist: text_or_empty(artist),
                album: text_or_empty(album),
                play_count: 0,
                bookmarks: Seq::empty(),
            },
        ),
        Event::LibraryItemDeletedEvent => items.remove(id),
        _ => if items.contains_key(id) {
            items.insert(id, apply_to_item(items[id], id, e.event))
        } else {
            items
        },
    }
}

/// The effect of a mutating event on the existing item `id`. A play count
/// stops at the largest value a `u32` holds.
pub open spec fn apply_to_item(v: ItemView, id: u128, ev: Event) -> ItemView {
    match ev {
        Event::LibraryItemPlayedEvent => ItemView {
            play_count: if v.play_count < u32::MAX { (v.play_count + 1) as u32 } else { v.play_count },
            ..v
        },
        Event::LibraryItemNameChangedEvent { new_name } => ItemView { name: new_name@, ..v },
        Event::LibraryItemFilePathChangedEvent { new_file_path } => ItemView {
            file_path: new_file_path@,
            ..v
        },
        Event::LibraryItemArtistChangedEvent { new_artist } => ItemView { artist: new_artist@, ..v },
        Event::LibraryItemAlbumChangedEvent { new_album } => ItemView { album: new_album@, ..v },
        Event::LibraryItemBookmarkAddedEvent { bookmark_id, position } => ItemView {
            bookmarks: stable_sort_by_position(
                upsert(
                    v.bookmarks,
                    bookmark_id,
                    BookmarkView { position, emoji: emoji_for(id, bookmark_id) },
                ),
            ),
            ..v
        },
        Event::LibraryItemBookmarkDeletedEvent { bookmark_id } => ItemView {
            bookmarks: remove_key(v.bookmarks, bookmark_id),
            ..v
        },
        Event::LibraryItemBookmarkSetEmojiEvent { bookmark_id, emoji } => if has_key(
            v.bookmarks,
            bookmark_id,
        ) {
            ItemView {
                bookmarks: upsert(
                    v.bookmarks,
                    bookmark_id,
                    BookmarkView {
                        position: v.bookmarks[index_of(v.bookmarks, bookmark_id)].1.position,
                        emoji: emoji@,
                    },
                ),
                ..v
            }
        } else {
            v
        },
        _ => v,
    }
}

/// Folds `es`, left to right, into `items`.
pub open spec fn fold_events(items: Map<u128, ItemView>, es: Seq<EventWithMetadata>) -> Map<
    u128,
    ItemView,
>
    decreases es.len(),
{
    if es.len() == 0 {
        items
    } else {
        apply_event(fold_events(items, es.drop_last()), es.last())
    }
}

/// The library that the event sequence `es` describes.
pub open spec fn replay(es: Seq<EventWithMetadata>) -> Map<u128, ItemView> {
    fold_events(Map::empty(), es)
}

/// The number of `Played` events for `id` in `es` since the last `Created` for
/// `id` (all of them when there is none).
pub open spec fn plays_since_created(es: Seq<EventWithMetadata>, id: u128) -> nat
    decreases es.len(),
{
    if es.len() == 0 {
        0
    } else {
        let prev = plays_since_created(es.drop_last(), id);
        if es.last().aggregate_id != id {
            prev
        } else {
            match es.last().event {
                Event::LibraryItemCreatedEvent { .. } => 0,
                Event::LibraryItemPlayedEvent => prev + 1,
                _ => prev,
            }
        }
    }
}

/// Folding two sequences one after the other is folding their concatenation:
/// a library updated event by event equals one rebuilt from the whole log.
pub proof fn lemma_fold_append(items: Map<u128, ItemView>, a: Seq<EventWithMetadata>, b: Seq<EventWithMetadata>)
    ensures
        fold_events(items, a + b) == fold_events(fold_events(items, a), b),
    decreases b.len(),
{
    if b.len() == 0 {
        assert(a + b =~= a);
    } else {
        assert((a + b).drop_last() =~= a + b.drop_last());
        lemma_fold_append(items, a, b.drop_last());
    }
}

/// Replay is deterministic: equal event sequences give equal libraries, down to
/// the order and the emoji of every bookmark, and replaying a prefix and then
/// the rest gives the same library as replaying everything at once.
pub proof fn lemma_replay_deterministic(a: Seq<EventWithMetadata>, b: Seq<EventWithMetadata>, k: int)
    requires
        a == b,
        0 <= k <= a.len(),
    ensures
        replay(a) == replay(b),
        replay(a) == fold_events(replay(a.take(k)), a.skip(k)),
{
    assert(a.take(k) + a.skip(k) =~= a);
    lemma_fold_append(Map::empty(), a.take(k), a.skip(k));
}

/// After a `BookmarkAdded` event, the target item's bookmarks ascend by position.
pub proof fn lemma_bookmark_added_sorted(items: Map<u128, ItemView>, e: EventWithMetadata)
    requires
        e.event is LibraryItemBookmarkAddedEvent,
        items.contains_key(e.aggregate_id),
    ensures
        apply_event(items, e).contains_key(e.aggregate_id),
        sorted_by_position(apply_event(items, e)[e.aggregate_id].bookmarks),
{
    let v = items[e.aggregate_id];
    if let Event::LibraryItemBookmarkAddedEvent { bookmark_id, position } = e.event {
        crate::bookmarks::lemma_stable_sort_sorted(
            upsert(v.bookmarks, bookmark_id, BookmarkView { position, emoji: emoji_for(e.aggregate_id, bookmark_id) }),
        );
    }
}

/// Every item of a replayed library has its bookmarks in ascending order of
/// position.
pub proof fn lemma_replay_ordered(es: Seq<EventWithMetadata>)
    ensures
        forall|k: u128| #[trigger] replay(es).contains_key(k) ==> sorted_by_position(replay(es)[k].bookmarks),
    decreases es.len(),
{
    if es.len() > 0 {
        lemma_replay_ordered(es.drop_last());
        let items = replay(es.drop_last());
        let e = es.last();
        let id = e.aggregate_id;
        if items.contains_key(id) {
            let v = items[id];
            match e.event {
                Event::LibraryItemBookmarkAddedEvent { bookmark_id, position } => {
                    lemma_bookmark_added_sorted(items, e);
                },
                Event::LibraryItemBookmarkDeletedEvent { bookmark_id } => {
                    crate::bookmarks::lemma_remove_key_sorted(v.bookmarks, bookmark_id);
                },
                Event::LibraryItemBookmarkSetEmojiEvent { bookmark_id, emoji } => {
                    if has_key(v.bookmarks, bookmark_id) {
                        crate::bookmarks::lemma_update_keeps_sorted(
                            v.bookmarks,
                            bookmark_id,
                            BookmarkView {
                                position: v.bookmarks[index_of(v.bookmarks, bookmark_id)].1.position,
                                emoji: emoji@,
                            },
                        );
                    }
                },
                _ => {},
            }
        }
    }
}

/// An item's play count is the number of `Played` events folded for it since
/// it was created, up to the largest count a `u32` holds.
pub proof fn lemma_play_count(es: Seq<EventWithMetadata>, id: u128)
    ensures
        replay(es).contains_key(id) ==> replay(es)[id].play_count as nat == if plays_since_created(
            es,
            id,
        ) < u32::MAX as nat {
            plays_since_created(es, id)
        } else {
            u32::MAX as nat
        },
    decreases es.len(),
{
    if es.len() > 0 {
        lemma_play_count(es.drop_last(), id);
    }
}

/// An event other than `Created` for an item that does not exist leaves the
/// library as it was.
pub proof fn lemma_unknown_aggregate_ignored(items: Map<u128, ItemView>, e: EventWithMetadata)
    requires
        !items.contains_key(e.aggregate_id),
        !(e.event is LibraryItemCreatedEvent),
    ensures
        apply_event(items, e) == items,
{
    if e.event is LibraryItemDeletedEvent {
        assert(items.remove(e.aggregate_id) =~= items);
    }
}

/// The emoji of bookmark `bookmark_id` on item `item_id`.
pub fn bookmark_emoji(item_id: u128, bookmark_id: u128) -> (r: String)
    ensures
        r@ == emoji_for(item_id, bookmark_id),
{
    let i: u128 = (item_id ^ bookmark_id) % PALETTE_LEN;
    let e: &str = if i == 0 { "🎵" }
    else if i == 1 { "🎶" }
    else if i == 2 { "🎼" }
    else if i == 3 { "🎧" }
    else if i == 4 { "🎤" }
    else if i == 5 { "🎹" }
    else if i == 6 { "🎷" }
    else if i == 7 { "🎺" }
    else if i == 8 { "🎸" }
    else if i == 9 { "🥁" }
    else if i == 10 { "🪕" }
    else { "🎻" };
    String::from_str(e)
}

/// The text of an optional field, empty when absent.
fn text_or_default(s: &Option<String>) -> (r: String)
    ensures
        r@ == text_or_empty(*s),
{
    match s {
        Some(t) => t.clone(),
        None => String::new(),
    }
}

/// Relies on `rand::random`: a uniformly drawn `u64`, taken as a `usize`; nothing is claimed of
/// its value.
#[verifier::external_body]
fn random_usize() -> (r: usize) {
    rand::random::<u64>() as usize
}

/// The entry of `all` that the number `draw` selects, wrapping around its
/// length, or `None` when `all` is empty.
pub fn pick(all: &Vec<(u128, u128)>, draw: usize) -> (r: Option<(u128, u128)>)
    ensures
        all@.len() == 0 ==> r is None,
        all@.len() > 0 ==> r == Some(all@[draw as int % all@.len() as int]),
{
    if all.len() == 0 {
        None
    } else {
        Some(all[draw % all.len()])
    }
}

impl LibraryItem {
    /// Where the item's audio is served from: the storage prefix followed by its
    /// file path.
    pub fn url(&self) -> (r: String)
        ensures
            r@ == STORAGE_URL@ + self.file_path@,
    {
        let mut r = String::from_str(STORAGE_URL);
        r.append(self.file_path.as_str());
        r
    }
}

/// Every bookmark of `m` appears in `all`, paired with `item_id`.
pub open spec fn listed(all: Seq<(u128, u128)>, item_id: u128, m: IndexMap<u128, Bookmark>) -> bool {
    forall|t: int| 0 <= t < bookmark_entries(m).len() ==> all.contains((item_id, #[trigger] bookmark_entries(m)[t].0))
}

/// What is listed stays listed as more pairs are added.
proof fn lemma_listed_push(all: Seq<(u128, u128)>, item_id: u128, m: IndexMap<u128, Bookmark>, x: (u128, u128))
    requires
        listed(all, item_id, m),
    ensures
        listed(all.push(x), item_id, m),
{
    assert forall|t: int| 0 <= t < bookmark_entries(m).len() implies all.push(x).contains((item_id, #[trigger] bookmark_entries(m)[t].0)) by {
        let q = choose|q: int| 0 <= q < all.len() && all[q] == (item_id, bookmark_entries(m)[t].0);
        assert(all.push(x)[q] == all[q]);
    }
}

/// The in-memory library: every item, by id.
#[derive(Clone, Debug)]
pub struct Library {
    pub items: HashMap<u128, LibraryItem>,
}

impl View for Library {
    type V = Map<u128, ItemView>;

    open spec fn view(&self) -> Map<u128, ItemView> {
        self.items@.map_values(|it: LibraryItem| it@)
    }
}

impl Library {
    /// Every item keeps its bookmarks distinct and in ascending order of position.
    pub open spec fn wf(&self) -> bool {
        forall|k: u128| #[trigger] self.items@.contains_key(k) ==> item_wf(self.items@[k]@)
    }

    /// An empty library.
    pub fn new() -> (r: Library)
        ensures
            r@ == Map::<u128, ItemView>::empty(),
            r.wf(),
    {
        let r = Library { items: HashMap::new() };
        assert(r@ =~= Map::<u128, ItemView>::empty());
        r
    }

    /// Builds the library by folding `events` in order.
    pub fn build_from_events(events: Vec<EventWithMetadata>) -> (r: Library)
        ensures
            r@ == replay(events@),
            r.wf(),
    {
        let mut library = Library::new();
        let mut i: usize = 0;
        while i < events.len()
            invariant
                i <= events.len(),
                library.wf(),
                library@ == fold_events(Map::empty(), events@.take(i as int)),
            decreases events.len() - i,
        {
            library.apply(&events[i]);
            proof {
                assert(events@.take(i + 1).drop_last() =~= events@.take(i as int));
            }
            i = i + 1;
        }
        proof {
            assert(events@.take(i as int) =~= events@);
        }
        library
    }

    /// Some item `item_id` holds a bookmark `bookmark_id`.
    pub open spec fn has_bookmark(&self, item_id: u128, bookmark_id: u128) -> bool {
        self@.contains_key(item_id) && has_key(self@[item_id].bookmarks, bookmark_id)
    }

    /// Every (item, bookmark) pair of the library, in an order that depends on
    /// how the item map is walked.
    fn all_bookmarks(&self) -> (r: Vec<(u128, u128)>)
        ensures
            forall|q: int| 0 <= q < r@.len() ==> self.has_bookmark(#[trigger] r@[q].0, r@[q].1),
            forall|k: u128, b: u128| #[trigger] self.has_bookmark(k, b) ==> r@.contains((k, b)),
            r@.len() == 0 ==> forall|k: u128| #[trigger] self@.contains_key(k)
                ==> self@[k].bookmarks.len() == 0,
    {
        let mut all: Vec<(u128, u128)> = Vec::new();
        let ghost mut done: Set<u128> = Set::empty();
        for (item_id, item) in it: self.items.iter()
            invariant
                forall|q: int| 0 <= q < all@.len() ==> self.has_bookmark(#[trigger] all@[q].0, all@[q].1),
                forall|k: u128| #[trigger] done.contains(k) ==> self.items@.contains_key(k) && listed(all@, k, self.items@[k].bookmarks),
                forall|k: u128| #[trigger] self.items@.contains_key(k) ==> done.contains(k) || exists|j: int|
                    it.index() <= j < it.seq().len() && it.seq()[j] == (&k, &self.items@[k]),
        {
            assert(it.seq()[it.index() as int] == (item_id, item));
            let ids = bookmark_ids(&item.bookmarks);
            let mut j: usize = 0;
            while j < ids.len()
                invariant
                    self.items@.contains_key(*item_id),
                    self.items@[*item_id] == *item,
                    ids@.len() == bookmark_entries(item.bookmarks).len(),
                    forall|t: int| 0 <= t < ids@.len() ==> ids@[t] == #[trigger] bookmark_entries(item.bookmarks)[t].0,
                    j <= ids.len(),
                    forall|q: int| 0 <= q < all@.len() ==> self.has_bookmark(#[trigger] all@[q].0, all@[q].1),
                    it.seq()[it.index() as int] == (item_id, item),
                    forall|t: int| 0 <= t < j ==> all@.contains((*item_id, #[trigger] bookmark_entries(item.bookmarks)[t].0)),
                    forall|k: u128| #[trigger] done.contains(k) ==> self.items@.contains_key(k) && listed(all@, k, self.items@[k].bookmarks),
                decreases ids.len() - j,
            {
                assert(bookmark_entries(item.bookmarks)[j as int].0 == ids@[j as int]);
                assert(self@[*item_id] == item@);
                let ghost before = all@;
                all.push((*item_id, ids[j]));
                proof {
                    assert(all@[before.len() as int] == (*item_id, ids@[j as int]));
                    assert forall|k: u128| #[trigger] done.contains(k) implies self.items@.contains_key(k) && listed(all@, k, self.items@[k].bookmarks) by {
                        lemma_listed_push(before, k, self.items@[k].bookmarks, (*item_id, ids@[j as int]));
                    }
                    assert forall|t: int| 0 <= t < j + 1 implies all@.contains((*item_id, #[trigger] bookmark_entries(item.bookmarks)[t].0)) by {
                        if t < j {
                            let q = choose|q: int| 0 <= q < before.len() && before[q] == (*item_id, bookmark_entries(item.bookmarks)[t].0);
                            assert(all@[q] == before[q]);
                        }
                    }
                }
                j = j + 1;
            }
            assert(listed(all@, *item_id, item.bookmarks));
            proof {
                done = done.insert(*item_id);
                assert forall|k: u128| #[trigger] self.items@.contains_key(k) implies done.contains(k) || exists|jj: int|
                    it.index() + 1 <= jj < it.seq().len() && it.seq()[jj] == (&k, &self.items@[k]) by {
                    if !done.contains(k) {
                        let jj = choose|jj: int| it.index() <= jj < it.seq().len() && it.seq()[jj] == (&k, &self.items@[k]);
                        assert(jj != it.index());
                    }
                }
            }
        }
        proof {
            assert forall|k: u128, b: u128| #[trigger] self.has_bookmark(k, b) implies all@.contains((k, b)) by {
                assert(self.items@.contains_key(k));
                assert(done.contains(k));
                let e = bookmark_entries(self.items@[k].bookmarks);
                let t = choose|t: int| 0 <= t < e.len() && e[t].0 == b;
                assert(e[t].0 == b);
            }
            assert forall|k: u128| #[trigger] self@.contains_key(k) && all@.len() == 0
                implies self@[k].bookmarks.len() == 0 by {
                let e = self@[k].bookmarks;
                if e.len() > 0 {
                    assert(self.has_bookmark(k, e[0].0));
                    assert(all@.contains((k, e[0].0)));
                }
            }
        }
        all
    }

    /// A bookmark of the library chosen at random, as (item id, bookmark id), or
    /// `None` when no item has a bookmark.
    pub fn random_bookmark(&self) -> (r: Option<(u128, u128)>)
        ensures
            match r {
                Some((item_id, bookmark_id)) => self.has_bookmark(item_id, bookmark_id),
                None => forall|k: u128| #[trigger] self@.contains_key(k) ==> self@[k].bookmarks.len() == 0,
            },
    {
        let all = self.all_bookmarks();
        let draw = random_usize();
        let r = pick(&all, draw);
        if let Some(p) = r {
            assert(all@[draw as int % all@.len() as int] == p);
        }
        r
    }

    /// Applies one event. Events for an item that does not exist change nothing;
    /// `Created` replaces any item of the same id.
    pub fn apply(&mut self, event: &EventWithMetadata)
        requires
            old(self).wf(),
        ensures
            final(self)@ == apply_event(old(self)@, *event),
            final(self).wf(),
    {
        let id = event.aggregate_id;
        let ghost before = self@;
        match &event.event {
            Event::LibraryItemCreatedEvent { name, file_path, artist, album } => {
                let item = LibraryItem {
                    id,
                    name: name.clone(),
                    created_time_utc: event.created_time_utc,
                    file_path: file_path.clone(),
                    artist: text_or_default(artist),
                    album: text_or_default(album),
                    play_count: 0,
                    bookmarks: new_bookmark_map(),
                };
                self.items.insert(id, item);
            },
            Event::LibraryItemDeletedEvent => {
                self.items.remove(&id);
            },
            _ => {
                match self.items.remove(&id) {
                    Some(item) => {
                        let item = Self::apply_to(item, id, &event.event);
                        self.items.insert(id, item);
                    },
                    None => {},
                }
            },
        }
        assert(self@ =~= apply_event(before, *event));
    }

    /// Applies a mutating event to an existing item.
    fn apply_to(item: LibraryItem, id: u128, ev: &Event) -> (r: LibraryItem)
        requires
            item_wf(item@),
        ensures
            r@ == apply_to_item(item@, id, *ev),
            item_wf(r@),
    {
        let mut item = item;
        let ghost old_bookmarks = bookmark_entries(item.bookmarks);
        match ev {
            Event::LibraryItemPlayedEvent => {
                if item.play_count < u32::MAX {
                    item.play_count = item.play_count + 1;
                }
            },
            Event::LibraryItemNameChangedEvent { new_name } => {
                item.name = new_name.clone();
            },
            Event::LibraryItemFilePathChangedEvent { new_file_path } => {
                item.file_path = new_file_path.clone();
            },
            Event::LibraryItemArtistChangedEvent { new_artist } => {
                item.artist = new_artist.clone();
            },
            Event::LibraryItemAlbumChangedEvent { new_album } => {
                item.album = new_album.clone();
            },
            Event::LibraryItemBookmarkAddedEvent { bookmark_id, position } => {
                let emoji = bookmark_emoji(id, *bookmark_id);
                insert_bookmark(&mut item.bookmarks, *bookmark_id, Bookmark { position: *position, emoji });
                sort_bookmarks_by_position(&mut item.bookmarks);
                proof {
                    crate::bookmarks::lemma_stable_sort_sorted(
                        upsert(
                            old_bookmarks,
                            *bookmark_id,
                            BookmarkView { position: *position, emoji: emoji_for(id, *bookmark_id) },
                        ),
                    );
                }
            },
            Event::LibraryItemBookmarkDeletedEvent { bookmark_id } => {
                shift_remove_bookmark(&mut item.bookmarks, *bookmark_id);
                proof {
                    crate::bookmarks::lemma_remove_key_sorted(old_bookmarks, *bookmark_id);
                }
            },
            Event::LibraryItemBookmarkSetEmojiEvent { bookmark_id, emoji } => {
                let found = match get_bookmark(&item.bookmarks, *bookmark_id) {
                    Some(b) => Some(b.position),
                    None => None,
                };
                match found {
                    Some(position) => {
                        insert_bookmark(
                            &mut item.bookmarks,
                            *bookmark_id,
                            Bookmark { position, emoji: emoji.clone() },
                        );
                        proof {
                            crate::bookmarks::lemma_update_keeps_sorted(
                                old_bookmarks,
                                *bookmark_id,
                                BookmarkView { position, emoji: emoji@ },
                            );
                        }
                    },
                    None => {},
                }
            },
            _ => {},
        }
        item
    }
}

} // verus!
