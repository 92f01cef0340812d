//! Replication between stores: events of a remote source whose identity the
//! local log lacks are appended to it, and nothing else changes.

use crate::event::EventWithMetadata;
use std::collections::HashSet;
use vstd::prelude::*;

verus! {

broadcast use vstd::std_specs::hash::group_hash_axioms;

/// The identities of the events of `log`.
pub open spec fn ids_of(log: Seq<EventWithMetadata>) -> Set<u128> {
    Set::new(|id: u128| exists|i: int| 0 <= i < log.len() && (#[trigger] log[i]).id == id)
}

/// The events of `remote`, in order, whose identity is neither in `known` nor
/// that of an earlier event of `remote`: the first event of each new identity.
pub open spec fn unseen(known: Set<u128>, remote: Seq<EventWithMetadata>) -> Seq<EventWithMetadata>
    decreases remote.len(),
{
    if remote.len() == 0 {
        Seq::empty()
    } else {
        let prev = unseen(known, remote.drop_last());
        if known.contains(remote.last().id) || ids_of(prev).contains(remote.last().id) {
            prev
        } else {
            prev.push(remote.last())
        }
    }
}

/// The local log after one sync against `remote`.
pub open spec fn synced(local: Seq<EventWithMetadata>, remote: Seq<EventWithMetadata>) -> Seq<
    EventWithMetadata,
> {
    local + unseen(ids_of(local), remote)
}

/// The identities of the events of `log`.
pub fn event_ids(log: &Vec<EventWithMetadata>) -> (r: HashSet<u128>)
    ensures
        r@ == ids_of(log@),
{
    let mut ids: HashSet<u128> = HashSet::new();
    let mut i: usize = 0;
    while i < log.len()
        invariant
            i <= log.len(),
            ids@ == ids_of(log@.take(i as int)),
        decreases log.len() - i,
    {
        ids.insert(log[i].id);
        proof {
            let t = log@.take(i + 1);
            assert(t[i as int] == log@[i as int]);
            assert forall|id: u128| ids_of(t).contains(id) == ids@.contains(id) by {
                if ids_of(t).contains(id) {
                    let j = choose|j: int| 0 <= j < t.len() && (#[trigger] t[j]).id == id;
                    if j < i {
                        assert(log@.take(i as int)[j] == t[j]);
                    }
                }
                if ids@.contains(id) && id != log@[i as int].id {
                    let j = choose|j: int| 0 <= j < i && (#[trigger] log@.take(i as int)[j]).id == id;
                    assert(t[j] == log@.take(i as int)[j]);
                }
            }
            assert(ids@ =~= ids_of(t));
        }
        i = i + 1;
    }
    proof {
        assert(log@.take(i as int) =~= log@);
    }
    ids
}

/// The events of `remote`, in order, whose identity is neither in `existing`
/// nor that of an earlier event of `remote`.
pub fn events_to_append(existing: &HashSet<u128>, remote: Vec<EventWithMetadata>) -> (r: Vec<
    EventWithMetadata,
>)
    ensures
        r@ == unseen(existing@, remote@),
{
    let mut fresh: Vec<EventWithMetadata> = Vec::new();
    let mut taken: HashSet<u128> = HashSet::new();
    for e in it: remote.into_iter()
        invariant
            it.seq() == remote@,
            fresh@ == unseen(existing@, remote@.take(it.index())),
            taken@ == ids_of(fresh@),
    {
        proof {
            assert(remote@.take(it.index() + 1).drop_last() =~= remote@.take(it.index()));
        }
        let id = e.id;
        if !existing.contains(&id) && !taken.contains(&id) {
            proof {
                lemma_ids_of_push(fresh@, e);
            }
            taken.insert(id);
            fresh.push(e);
        }
    }
    proof {
        assert(remote@.take(remote@.len() as int) =~= remote@);
    }
    fresh
}

/// Appends to `local` the first event of each identity of `remote` that it
/// lacks, and returns how many were appended.
pub fn merge_events(local: &mut Vec<EventWithMetadata>, remote: Vec<EventWithMetadata>) -> (count: usize)
    requires
        old(local)@.len() + remote@.len() <= usize::MAX,
    ensures
        final(local)@ == synced(old(local)@, remote@),
        count == final(local)@.len() - old(local)@.len(),
        ids_of(final(local)@) == ids_of(old(local)@).union(ids_of(remote@)),
        unique_ids(old(local)@) ==> unique_ids(final(local)@),
{
    let existing = event_ids(local);
    let ghost before = local@;
    let mut fresh = events_to_append(&existing, remote);
    proof {
        lemma_unseen_len(existing@, remote@);
        lemma_sync_union(before, remote@);
    }
    let count = fresh.len();
    local.append(&mut fresh);
    count
}

/// No more events than `remote` has are unseen.
pub proof fn lemma_unseen_len(known: Set<u128>, remote: Seq<EventWithMetadata>)
    ensures
        unseen(known, remote).len() <= remote.len(),
    decreases remote.len(),
{
    if remote.len() > 0 {
        lemma_unseen_len(known, remote.drop_last());
    }
}

/// No two events of `log` share an identity.
pub open spec fn unique_ids(log: Seq<EventWithMetadata>) -> bool {
    forall|i: int, j: int| 0 <= i < log.len() && 0 <= j < log.len() && i != j ==> (#[trigger] log[i]).id != (#[trigger] log[j]).id
}

/// The identities of a concatenation are those of its two parts.
proof fn lemma_ids_of_concat(a: Seq<EventWithMetadata>, b: Seq<EventWithMetadata>)
    ensures
        ids_of(a + b) == ids_of(a).union(ids_of(b)),
{
    let c = a + b;
    assert forall|id: u128| ids_of(c).contains(id) <==> ids_of(a).union(ids_of(b)).contains(id) by {
        if ids_of(c).contains(id) {
            let i = choose|i: int| 0 <= i < c.len() && (#[trigger] c[i]).id == id;
            if i < a.len() {
                assert(a[i] == c[i]);
            } else {
                assert(b[i - a.len()] == c[i]);
            }
        }
        if ids_of(a).contains(id) {
            let i = choose|i: int| 0 <= i < a.len() && (#[trigger] a[i]).id == id;
            assert(c[i] == a[i]);
        }
        if ids_of(b).contains(id) {
            let i = choose|i: int| 0 <= i < b.len() && (#[trigger] b[i]).id == id;
            assert(c[a.len() + i] == b[i]);
        }
    }
    assert(ids_of(c) =~= ids_of(a).union(ids_of(b)));
}

/// Appending an event adds its identity.
proof fn lemma_ids_of_push(s: Seq<EventWithMetadata>, x: EventWithMetadata)
    ensures
        ids_of(s.push(x)) == ids_of(s).insert(x.id),
{
    assert(s.push(x) =~= s + seq![x]);
    lemma_ids_of_concat(s, seq![x]);
    assert(ids_of(seq![x]) =~= set![x.id]) by {
        assert(seq![x][0] == x);
    }
    assert(ids_of(s).union(set![x.id]) =~= ids_of(s).insert(x.id));
}

/// The unseen events carry exactly the remote identities that are not known,
/// each once.
proof fn lemma_unseen_ids(known: Set<u128>, remote: Seq<EventWithMetadata>)
    ensures
        ids_of(unseen(known, remote)) == ids_of(remote).difference(known),
        unique_ids(unseen(known, remote)),
    decreases remote.len(),
{
    if remote.len() == 0 {
        assert(ids_of(unseen(known, remote)) =~= ids_of(remote).difference(known));
    } else {
        let init = remote.drop_last();
        let x = remote.last();
        lemma_unseen_ids(known, init);
        assert(remote =~= init.push(x));
        lemma_ids_of_push(init, x);
        let prev = unseen(known, init);
        if known.contains(x.id) || ids_of(prev).contains(x.id) {
            assert(ids_of(unseen(known, remote)) =~= ids_of(remote).difference(known));
        } else {
            lemma_ids_of_push(prev, x);
            assert(ids_of(unseen(known, remote)) =~= ids_of(remote).difference(known));
            let u = prev.push(x);
            assert forall|i: int, j: int| 0 <= i < u.len() && 0 <= j < u.len() && i != j
                implies (#[trigger] u[i]).id != (#[trigger] u[j]).id by {
                if i < prev.len() && j < prev.len() {
                    assert(u[i] == prev[i] && u[j] == prev[j]);
                } else if i < prev.len() {
                    assert(u[i] == prev[i]);
                    assert(ids_of(prev).contains(prev[i].id));
                } else if j < prev.len() {
                    assert(u[j] == prev[j]);
                    assert(ids_of(prev).contains(prev[j].id));
                }
            }
        }
    }
}

/// A sync leaves the local log holding every identity of the local log and of
/// the remote source, and nothing else; when the local log held no identity
/// twice, neither does the result, whatever the remote source sent.
pub proof fn lemma_sync_union(local: Seq<EventWithMetadata>, remote: Seq<EventWithMetadata>)
    ensures
        ids_of(synced(local, remote)) == ids_of(local).union(ids_of(remote)),
        unique_ids(local) ==> unique_ids(synced(local, remote)),
{
    let u = unseen(ids_of(local), remote);
    let s = synced(local, remote);
    lemma_unseen_ids(ids_of(local), remote);
    lemma_ids_of_concat(local, u);
    assert(ids_of(local).union(ids_of(remote).difference(ids_of(local))) =~= ids_of(local).union(
        ids_of(remote),
    ));
    if unique_ids(local) {
        assert forall|i: int, j: int| 0 <= i < s.len() && 0 <= j < s.len() && i != j
            implies (#[trigger] s[i]).id != (#[trigger] s[j]).id by {
            if i < local.len() && j < local.len() {
                assert(s[i] == local[i] && s[j] == local[j]);
            } else if i >= local.len() && j >= local.len() {
                assert(s[i] == u[i - local.len()] && s[j] == u[j - local.len()]);
            } else if i < local.len() {
                assert(s[i] == local[i] && s[j] == u[j - local.len()]);
                assert(ids_of(local).contains(local[i].id));
                assert(ids_of(u).contains(u[j - local.len()].id));
            } else {
                assert(s[j] == local[j] && s[i] == u[i - local.len()]);
                assert(ids_of(local).contains(local[j].id));
                assert(ids_of(u).contains(u[i - local.len()].id));
            }
        }
    }
}

/// Nothing is unseen when every identity of `remote` is known.
proof fn lemma_all_known(known: Set<u128>, remote: Seq<EventWithMetadata>)
    requires
        forall|i: int| 0 <= i < remote.len() ==> known.contains((#[trigger] remote[i]).id),
    ensures
        unseen(known, remote) == Seq::<EventWithMetadata>::empty(),
    decreases remote.len(),
{
    if remote.len() > 0 {
        lemma_all_known(known, remote.drop_last());
        assert(known.contains(remote[remote.len() - 1].id));
    }
}

/// After a sync, the local log knows every identity of the remote source.
pub proof fn lemma_synced_knows_remote(local: Seq<EventWithMetadata>, remote: Seq<EventWithMetadata>)
    ensures
        forall|i: int| 0 <= i < remote.len() ==> ids_of(synced(local, remote)).contains(
            (#[trigger] remote[i]).id,
        ),
{
    lemma_sync_union(local, remote);
    assert forall|i: int| 0 <= i < remote.len() implies ids_of(synced(local, remote)).contains(
        (#[trigger] remote[i]).id,
    ) by {
        assert(ids_of(remote).contains(remote[i].id));
    }
}

/// Syncing a second time against an unchanged remote source appends nothing.
pub proof fn lemma_sync_idempotent(local: Seq<EventWithMetadata>, remote: Seq<EventWithMetadata>)
    ensures
        unseen(ids_of(synced(local, remote)), remote) == Seq::<EventWithMetadata>::empty(),
        synced(synced(local, remote), remote) == synced(local, remote),
{
    lemma_synced_knows_remote(local, remote);
    lemma_all_known(ids_of(synced(local, remote)), remote);
    assert(synced(local, remote) + Seq::<EventWithMetadata>::empty() =~= synced(local, remote));
}

} // verus!
