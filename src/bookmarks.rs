//! The per-item bookmark collection: an insertion-ordered map from bookmark
//! id to bookmark, kept in ascending order of position.

use crate::position::Position;
use indexmap::IndexMap;
use vstd::prelude::*;

verus! {

/// The insertion-ordered map of the `indexmap` crate, opaque to proofs; what it
/// holds is `bookmark_entries`.
#[verifier::external_type_specification]
#[verifier::external_body]
#[verifier::reject_recursive_types(K)]
#[verifier::reject_recursive_types(V)]
#[verifier::reject_recursive_types(S)]
pub struct ExIndexMap<K, V, S>(IndexMap<K, V, S>);

/// Relies on `IndexMap`'s `Clone`, which the derived `Clone` of library items
/// calls; nothing is claimed of the copy.
pub assume_specification<K: Clone, V: Clone, S: Clone>[ <IndexMap<K, V, S> as Clone>::clone ](
    m: &IndexMap<K, V, S>,
) -> IndexMap<K, V, S>;

/// A point of interest within a track.
#[derive(Clone, Debug, PartialEq)]
pub struct Bookmark {
    pub position: Position,
    pub emoji: String,
}

/// What a bookmark holds, as mathematical values.
pub struct BookmarkView {
    pub position: Position,
    pub emoji: Seq<char>,
}

impl View for Bookmark {
    type V = BookmarkView;

    open spec fn view(&self) -> BookmarkView {
        BookmarkView { position: self.position, emoji: self.emoji@ }
    }
}

/// The entries of a bookmark map, in the map's order.
pub type Entries = Seq<(u128, BookmarkView)>;

/// The entries that a bookmark map holds, in its order.
pub uninterp spec fn bookmark_entries(m: IndexMap<u128, Bookmark>) -> Seq<(u128, BookmarkView)>;

/// No two entries share a key.
pub open spec fn unique_keys(s: Entries) -> bool {
    forall|i: int, j: int| 0 <= i < s.len() && 0 <= j < s.len() && i != j ==> s[i].0 != s[j].0
}

/// Some entry has key `k`.
pub open spec fn has_key(s: Entries, k: u128) -> bool {
    exists|i: int| 0 <= i < s.len() && s[i].0 == k
}

/// The index of the entry with key `k` (meaningful when `has_key(s, k)`).
pub open spec fn index_of(s: Entries, k: u128) -> int {
    choose|i: int| 0 <= i < s.len() && s[i].0 == k
}

/// Sets the value for `k` in place, or appends a new entry when `k` is absent.
pub open spec fn upsert(s: Entries, k: u128, v: BookmarkView) -> Entries {
    if has_key(s, k) {
        s.update(index_of(s, k), (k, v))
    } else {
        s.push((k, v))
    }
}

/// Removes the entry for `k`, keeping the others in order.
pub open spec fn remove_key(s: Entries, k: u128) -> Entries {
    if has_key(s, k) {
        s.remove(index_of(s, k))
    } else {
        s
    }
}

/// Entries are in ascending order of position.
pub open spec fn sorted_by_position(s: Entries) -> bool {
    forall|i: int, j: int| 0 <= i < j < s.len() ==> (#[trigger] s[i]).1.position.le((#[trigger] s[j]).1.position)
}

/// Places `e` after every entry of `s` whose position is not later than its own,
/// scanning from the back.
pub open spec fn insert_by_position(s: Entries, e: (u128, BookmarkView)) -> Entries
    decreases s.len(),
{
    if s.len() == 0 {
        seq![e]
    } else if s.last().1.position.le(e.1.position) {
        s.push(e)
    } else {
        insert_by_position(s.drop_last(), e).push(s.last())
    }
}

/// The stable sort of `s` by position: entries of equal position keep their
/// relative order.
pub open spec fn stable_sort_by_position(s: Entries) -> Entries
    decreases s.len(),
{
    if s.len() == 0 {
        s
    } else {
        insert_by_position(stable_sort_by_position(s.drop_last()), s.last())
    }
}

/// Every entry of `insert_by_position(s, e)` is bounded by `p` when every entry
/// of `s`, and `e`, are.
proof fn lemma_insert_bounded(s: Entries, e: (u128, BookmarkView), p: Position)
    requires
        forall|i: int| 0 <= i < s.len() ==> (#[trigger] s[i]).1.position.le(p),
        e.1.position.le(p),
    ensures
        insert_by_position(s, e).len() == s.len() + 1,
        forall|i: int|
            0 <= i < insert_by_position(s, e).len() ==> (#[trigger] insert_by_position(
                s,
                e,
            )[i]).1.position.le(p),
    decreases s.len(),
{
    if s.len() > 0 && !s.last().1.position.le(e.1.position) {
        let t = s.drop_last();
        assert forall|i: int| 0 <= i < t.len() implies (#[trigger] t[i]).1.position.le(p) by {
            assert(t[i] == s[i]);
        }
        lemma_insert_bounded(t, e, p);
    }
}

/// Inserting into sorted entries keeps them sorted.
pub proof fn lemma_insert_sorted(s: Entries, e: (u128, BookmarkView))
    requires
        sorted_by_position(s),
    ensures
        sorted_by_position(insert_by_position(s, e)),
        insert_by_position(s, e).len() == s.len() + 1,
    decreases s.len(),
{
    if s.len() == 0 {
    } else if s.last().1.position.le(e.1.position) {
        let r = s.push(e);
        assert forall|i: int, j: int| 0 <= i < j < r.len() implies (#[trigger] r[i]).1.position.le(
            (#[trigger] r[j]).1.position,
        ) by {
            if j < s.len() {
                assert(r[i] == s[i] && r[j] == s[j]);
            } else {
                assert(r[i] == s[i]);
                if i < s.len() - 1 {
                    assert(s[i].1.position.le(s[s.len() - 1].1.position));
                }
            }
        }
    } else {
        let t = s.drop_last();
        let l = s.last();
        assert forall|i: int, j: int| 0 <= i < j < t.len() implies (#[trigger] t[i]).1.position.le(
            (#[trigger] t[j]).1.position,
        ) by {
            assert(t[i] == s[i] && t[j] == s[j]);
        }
        lemma_insert_sorted(t, e);
        assert forall|i: int| 0 <= i < t.len() implies (#[trigger] t[i]).1.position.le(
            l.1.position,
        ) by {
            assert(t[i] == s[i]);
            assert(s[i].1.position.le(s[s.len() - 1].1.position));
        }
        lemma_insert_bounded(t, e, l.1.position);
        let u = insert_by_position(t, e);
        let r = u.push(l);
        assert forall|i: int, j: int| 0 <= i < j < r.len() implies (#[trigger] r[i]).1.position.le(
            (#[trigger] r[j]).1.position,
        ) by {
            assert(r[i] == u[i]);
            if j < u.len() {
                assert(r[j] == u[j]);
            }
        }
    }
}

/// The stable sort by position yields entries in ascending order of position.
pub proof fn lemma_stable_sort_sorted(s: Entries)
    ensures
        sorted_by_position(stable_sort_by_position(s)),
        stable_sort_by_position(s).len() == s.len(),
    decreases s.len(),
{
    if s.len() > 0 {
        lemma_stable_sort_sorted(s.drop_last());
        lemma_insert_sorted(stable_sort_by_position(s.drop_last()), s.last());
    }
}

/// Removing an entry keeps the others sorted.
pub proof fn lemma_remove_key_sorted(s: Entries, k: u128)
    requires
        sorted_by_position(s),
    ensures
        sorted_by_position(remove_key(s, k)),
{
    if has_key(s, k) {
        let x = index_of(s, k);
        let r = s.remove(x);
        assert forall|i: int, j: int| 0 <= i < j < r.len() implies (#[trigger] r[i]).1.position.le(
            (#[trigger] r[j]).1.position,
        ) by {
            let a = if i < x { i } else { i + 1 };
            let b = if j < x { j } else { j + 1 };
            assert(r[i] == s[a] && r[j] == s[b]);
        }
    }
}

/// Giving an entry a new value at the same position keeps the entries sorted.
pub proof fn lemma_update_keeps_sorted(s: Entries, k: u128, v: BookmarkView)
    requires
        sorted_by_position(s),
        has_key(s, k),
        v.position == s[index_of(s, k)].1.position,
    ensures
        sorted_by_position(upsert(s, k, v)),
{
    let x = index_of(s, k);
    let r = upsert(s, k, v);
    assert forall|i: int, j: int| 0 <= i < j < r.len() implies (#[trigger] r[i]).1.position.le(
        (#[trigger] r[j]).1.position,
    ) by {
        assert(s[i].1.position.le(s[j].1.position));
    }
}

/// Relies on `IndexMap::new`: the new map is empty.
#[verifier::external_body]
pub(crate) fn new_bookmark_map() -> (r: IndexMap<u128, Bookmark>)
    ensures
        bookmark_entries(r) == Seq::<(u128, BookmarkView)>::empty(),
{
    IndexMap::new()
}

/// Relies on `IndexMap::insert`: an existing key keeps its place and takes the
/// new value; a new key is appended last. Keys stay unique.
#[verifier::external_body]
pub(crate) fn insert_bookmark(m: &mut IndexMap<u128, Bookmark>, k: u128, b: Bookmark)
    requires
        unique_keys(bookmark_entries(*old(m))),
    ensures
        bookmark_entries(*final(m)) == upsert(bookmark_entries(*old(m)), k, b@),
        unique_keys(bookmark_entries(*final(m))),
{
    m.insert(k, b);
}

/// Relies on `IndexMap::get`: the value stored for `k`, if any.
#[verifier::external_body]
pub(crate) fn get_bookmark(m: &IndexMap<u128, Bookmark>, k: u128) -> (r: Option<&Bookmark>)
    requires
        unique_keys(bookmark_entries(*m)),
    ensures
        match r {
            Some(b) => has_key(bookmark_entries(*m), k)
                && bookmark_entries(*m)[index_of(bookmark_entries(*m), k)].1 == b@,
            None => !has_key(bookmark_entries(*m), k),
        },
{
    m.get(&k)
}

/// Relies on `IndexMap::shift_remove`: the entry for `k` goes, and the entries
/// after it shift down, keeping their order.
#[verifier::external_body]
pub(crate) fn shift_remove_bookmark(m: &mut IndexMap<u128, Bookmark>, k: u128)
    requires
        unique_keys(bookmark_entries(*old(m))),
    ensures
        bookmark_entries(*final(m)) == remove_key(bookmark_entries(*old(m)), k),
        unique_keys(bookmark_entries(*final(m))),
{
    m.shift_remove(&k);
}

/// Relies on `IndexMap::sort_by`, which sorts stably, here by position
/// (compared with `Position::compare`).
#[verifier::external_body]
pub(crate) fn sort_bookmarks_by_position(m: &mut IndexMap<u128, Bookmark>)
    requires
        unique_keys(bookmark_entries(*old(m))),
    ensures
        bookmark_entries(*final(m)) == stable_sort_by_position(bookmark_entries(*old(m))),
        unique_keys(bookmark_entries(*final(m))),
{
    m.sort_by(|_, a, _, b| a.position.compare(&b.position));
}

/// Relies on `IndexMap::keys`: the keys, in the map's order.
#[verifier::external_body]
pub(crate) fn bookmark_ids(m: &IndexMap<u128, Bookmark>) -> (r: Vec<u128>)
    ensures
        r@.len() == bookmark_entries(*m).len(),
        forall|i: int| 0 <= i < r@.len() ==> r@[i] == #[trigger] bookmark_entries(*m)[i].0,
{
    m.keys().copied().collect()
}

} // verus!
