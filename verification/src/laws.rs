//! What holds of every sync run.

use vstd::prelude::*;
use crate::api::{
    after_entries, after_entry, after_scan, decoded, due, entry_fails, CollectionScanView,
    EntryScanView,
};
use crate::db::{
    declared, lemma_declared_again, lemma_declared_between, lemma_declared_unique,
    lemma_with_collection, lemma_with_simulation, lemma_with_simulation_elsewhere, unique_uids,
    CacheRowView, CacheView, CollectionView,
};
use crate::search::lemma_first_where;
use crate::types::Timestamp;

verus! {

/// Dealing with an entry keeps the rules of the cache, and leaves the
/// collections as they were.
pub proof fn lemma_after_entry_wf(c: CacheView, uid: Seq<char>, e: EntryScanView, now: Timestamp)
    requires
        c.wf(),
    ensures
        after_entry(c, uid, e, now).wf(),
        after_entry(c, uid, e, now).collections == c.collections,
{
    match decoded(e) {
        Some((meta, parameters)) => {
            if due(c, uid, e) && !c.full_for(uid, e.name) {
                lemma_with_simulation(c, uid, e.name, meta, parameters, now);
            }
        },
        None => {},
    }
}

/// Dealing with the entries of a collection keeps the rules of the cache.
pub proof fn lemma_after_entries_wf(
    c: CacheView,
    uid: Seq<char>,
    entries: Seq<EntryScanView>,
    now: Timestamp,
)
    requires
        c.wf(),
    ensures
        after_entries(c, uid, entries, now).wf(),
        after_entries(c, uid, entries, now).collections == c.collections,
    decreases entries.len(),
{
    if entries.len() > 0 {
        lemma_after_entries_wf(c, uid, entries.drop_last(), now);
        lemma_after_entry_wf(
            after_entries(c, uid, entries.drop_last(), now),
            uid,
            entries.last(),
            now,
        );
    }
}

/// Uniqueness: whatever a sync run finds, the cache never holds two rows for
/// one entry of one collection, nor two collections of one uid.
pub proof fn lemma_scan_keeps_rows_unique(
    c: CacheView,
    found: Seq<CollectionScanView>,
    now: Timestamp,
)
    requires
        c.wf(),
    ensures
        after_scan(c, found, now).wf(),
    decreases found.len(),
{
    if found.len() > 0 {
        lemma_scan_keeps_rows_unique(c, found.drop_last(), now);
        let before = after_scan(c, found.drop_last(), now);
        lemma_with_collection(before, found.last().uid, found.last().path);
        lemma_after_entries_wf(
            before.with_collection(found.last().uid, found.last().path),
            found.last().uid,
            found.last().entries,
            now,
        );
    }
}

/// A repeated entry is updated in place: where the entry has a row, writing
/// it again keeps the number of rows, the row's place and its id.
pub proof fn lemma_repeated_entry_updates_in_place(
    c: CacheView,
    uid: Seq<char>,
    e: EntryScanView,
    now: Timestamp,
)
    requires
        c.wf(),
        c.row_at(uid, e.name) is Some,
    ensures
        after_entry(c, uid, e, now).simulations.len() == c.simulations.len(),
        after_entry(c, uid, e, now).row_at(uid, e.name) == c.row_at(uid, e.name),
        after_entry(c, uid, e, now).id_for(uid, e.name) == c.id_for(uid, e.name),
{
    match decoded(e) {
        Some((meta, parameters)) => {
            if due(c, uid, e) && !c.full_for(uid, e.name) {
                lemma_with_simulation(c, uid, e.name, meta, parameters, now);
            }
        },
        None => {},
    }
}

/// Change-triggered resync: an entry whose container was modified strictly
/// after its row was last written, and can be decoded, is written again. Its
/// row then holds what was decoded, and the time of the run.
pub proof fn lemma_changed_entry_is_resynced(
    c: CacheView,
    uid: Seq<char>,
    e: EntryScanView,
    now: Timestamp,
)
    requires
        c.wf(),
        c.sync_time(uid, e.name) is Some,
        e.mtime is Some,
        e.mtime->0.spec_is_after(c.sync_time(uid, e.name)->0),
        decoded(e) is Some,
    ensures
        due(c, uid, e),
        !entry_fails(c, uid, e),
        ({
            let d = after_entry(c, uid, e, now);
            let (meta, parameters) = decoded(e)->0;
            &&& d.row_at(uid, e.name) == c.row_at(uid, e.name)
            &&& d.row_at(uid, e.name) is Some
            &&& d.simulations[d.row_at(uid, e.name)->0].content() == (uid, e.name, meta, parameters)
            &&& d.sync_time(uid, e.name) == Some(now)
        }),
{
    let (meta, parameters) = decoded(e)->0;
    lemma_with_simulation(c, uid, e.name, meta, parameters, now);
}

/// An entry whose container is no newer than its row is left alone, whatever
/// the container holds.
pub proof fn lemma_unchanged_entry_is_skipped(
    c: CacheView,
    uid: Seq<char>,
    e: EntryScanView,
    now: Timestamp,
)
    requires
        c.sync_time(uid, e.name) is Some,
        e.mtime is Some,
        !e.mtime->0.spec_is_after(c.sync_time(uid, e.name)->0),
    ensures
        after_entry(c, uid, e, now) == c,
{
}

/// An entry that was never written is always due, if it can be decoded.
pub proof fn lemma_new_entry_is_synced(c: CacheView, uid: Seq<char>, e: EntryScanView)
    requires
        c.sync_time(uid, e.name) is None,
        e.mtime is Some,
        decoded(e) is Some,
    ensures
        due(c, uid, e),
{
}

/// An entry whose container is missing or cannot be decoded, or whose
/// modification time cannot be read, changes nothing and fails nothing.
pub proof fn lemma_unreadable_entry_changes_nothing(
    c: CacheView,
    uid: Seq<char>,
    e: EntryScanView,
    now: Timestamp,
)
    requires
        decoded(e) is None || e.mtime is None,
    ensures
        after_entry(c, uid, e, now) == c,
        !entry_fails(c, uid, e),
{
}

/// Graceful partial failure within a collection: the run deals with the other
/// entries of a collection as if the unreadable entry were not there.
pub proof fn lemma_unreadable_entry_is_passed_over(
    c: CacheView,
    uid: Seq<char>,
    entries: Seq<EntryScanView>,
    i: int,
    now: Timestamp,
)
    requires
        0 <= i < entries.len(),
        decoded(entries[i]) is None || entries[i].mtime is None,
    ensures
        after_entries(c, uid, entries, now) == after_entries(c, uid, entries.remove(i), now),
    decreases entries.len(),
{
    let rest = entries.drop_last();
    if i == entries.len() - 1 {
        assert(entries.remove(i) =~= rest);
        lemma_unreadable_entry_changes_nothing(
            after_entries(c, uid, rest, now),
            uid,
            entries.last(),
            now,
        );
    } else {
        lemma_unreadable_entry_is_passed_over(c, uid, rest, i, now);
        assert(entries.remove(i).drop_last() =~= rest.remove(i));
        assert(entries.remove(i).last() == entries.last());
    }
}

/// A listing in which one entry of one collection is left out.
pub open spec fn without_entry(found: Seq<CollectionScanView>, k: int, i: int) -> Seq<
    CollectionScanView,
> {
    found.update(k, CollectionScanView { entries: found[k].entries.remove(i), ..found[k] })
}

/// Graceful partial failure across a run: the run deals with every other
/// entry, of the same and of the other collections, as if the unreadable
/// entry were not there.
pub proof fn lemma_scan_passes_over_unreadable_entry(
    c: CacheView,
    found: Seq<CollectionScanView>,
    k: int,
    i: int,
    now: Timestamp,
)
    requires
        0 <= k < found.len(),
        0 <= i < found[k].entries.len(),
        decoded(found[k].entries[i]) is None || found[k].entries[i].mtime is None,
    ensures
        after_scan(c, found, now) == after_scan(c, without_entry(found, k, i), now),
    decreases found.len(),
{
    let other = without_entry(found, k, i);
    let rest = found.drop_last();
    if k == found.len() - 1 {
        assert(other.drop_last() =~= rest);
        let before = after_scan(c, rest, now);
        lemma_unreadable_entry_is_passed_over(
            before.with_collection(found[k].uid, found[k].path),
            found[k].uid,
            found[k].entries,
            i,
            now,
        );
    } else {
        lemma_scan_passes_over_unreadable_entry(c, rest, k, i, now);
        assert(other.drop_last() =~= without_entry(rest, k, i));
        assert(other.last() == found.last());
    }
}


/// Two rows that say the same of their entry: they differ at most in the time
/// of their last write.
pub open spec fn same_row(a: CacheRowView, b: CacheRowView) -> bool {
    a.id == b.id && a.content() == b.content()
}

/// Two caches that hold the same rows, up to the times of their last writes.
pub open spec fn same_rows(a: CacheView, b: CacheView) -> bool {
    &&& a.last_id == b.last_id
    &&& a.simulations.len() == b.simulations.len()
    &&& forall|i: int|
        0 <= i < a.simulations.len() ==> same_row(#[trigger] a.simulations[i], b.simulations[i])
}

/// The place `(k, i)` names an entry of the listing.
pub open spec fn in_listing(found: Seq<CollectionScanView>, k: int, i: int) -> bool {
    0 <= k < found.len() && 0 <= i < found[k].entries.len()
}

/// The collection uid and the name under which the entry at `(k, i)` is cached.
pub open spec fn key_at(found: Seq<CollectionScanView>, k: int, i: int) -> (Seq<char>, Seq<char>) {
    (found[k].uid, found[k].entries[i].name)
}

/// No two entries of the listing are cached under the same uid and name.
pub open spec fn distinct_entries(found: Seq<CollectionScanView>) -> bool {
    forall|k1: int, i1: int, k2: int, i2: int|
        in_listing(found, k1, i1) && in_listing(found, k2, i2) && !(k1 == k2 && i1 == i2)
            ==> #[trigger] key_at(found, k1, i1) != #[trigger] key_at(found, k2, i2)
}

/// Dealing with the entry again would write nothing new: it is not due, or
/// its row already holds what it decodes to.
pub open spec fn settled(c: CacheView, uid: Seq<char>, e: EntryScanView) -> bool {
    due(c, uid, e) && !c.full_for(uid, e.name) ==> match (c.row_at(uid, e.name), decoded(e)) {
        (Some(i), Some((meta, parameters))) => 0 <= i < c.simulations.len()
            && c.simulations[i].content() == (uid, e.name, meta, parameters),
        _ => false,
    }
}

/// The entry at `(k, i)` of the listing is settled.
pub open spec fn settled_at(c: CacheView, found: Seq<CollectionScanView>, k: int, i: int) -> bool {
    settled(c, found[k].uid, found[k].entries[i])
}

/// The entries of the first `n` collections, and the first `m` entries of the
/// next, are settled.
pub open spec fn settled_upto(c: CacheView, found: Seq<CollectionScanView>, n: int, m: int) -> bool {
    forall|k: int, i: int|
        in_listing(found, k, i) && (k < n || (k == n && i < m)) ==> #[trigger] settled_at(
            c,
            found,
            k,
            i,
        )
}

/// Once an entry was dealt with, it is settled.
proof fn lemma_entry_settles(c: CacheView, uid: Seq<char>, e: EntryScanView, now: Timestamp)
    requires
        c.wf(),
    ensures
        settled(after_entry(c, uid, e, now), uid, e),
{
    match decoded(e) {
        Some((meta, parameters)) => {
            if due(c, uid, e) && !c.full_for(uid, e.name) {
                lemma_with_simulation(c, uid, e.name, meta, parameters, now);
                lemma_first_where(
                    after_entry(c, uid, e, now).simulations,
                    |r: CacheRowView| r.collection_uid == uid && r.name == e.name,
                );
            }
        },
        None => {},
    }
}

/// Dealing with an entry leaves every entry that is cached elsewhere settled.
proof fn lemma_settled_elsewhere(
    c: CacheView,
    uid: Seq<char>,
    e: EntryScanView,
    now: Timestamp,
    other_uid: Seq<char>,
    other: EntryScanView,
)
    requires
        c.wf(),
        settled(c, other_uid, other),
        !(other_uid == uid && other.name == e.name),
    ensures
        settled(after_entry(c, uid, e, now), other_uid, other),
{
    match decoded(e) {
        Some((meta, parameters)) => {
            if due(c, uid, e) && !c.full_for(uid, e.name) {
                lemma_with_simulation_elsewhere(
                    c,
                    uid,
                    e.name,
                    meta,
                    parameters,
                    now,
                    other_uid,
                    other.name,
                );
                lemma_with_simulation(c, uid, e.name, meta, parameters, now);
            }
        },
        None => {},
    }
}

/// Dealing with a settled entry changes no row but in the time of its last
/// write.
proof fn lemma_settled_entry_keeps_rows(c: CacheView, uid: Seq<char>, e: EntryScanView, now: Timestamp)
    requires
        c.wf(),
        settled(c, uid, e),
    ensures
        same_rows(c, after_entry(c, uid, e, now)),
{
    let d = after_entry(c, uid, e, now);
    match decoded(e) {
        Some((meta, parameters)) => {
            if due(c, uid, e) && !c.full_for(uid, e.name) {
                lemma_with_simulation(c, uid, e.name, meta, parameters, now);
                let at = c.row_at(uid, e.name)->0;
                assert forall|i: int| 0 <= i < c.simulations.len() implies same_row(
                    #[trigger] c.simulations[i],
                    d.simulations[i],
                ) by {
                    if i != at {
                        assert(d.simulations[i] == c.simulations[i]);
                    }
                }
            }
        },
        None => {},
    }
}

proof fn lemma_same_rows_trans(a: CacheView, b: CacheView, c: CacheView)
    requires
        same_rows(a, b),
        same_rows(b, c),
    ensures
        same_rows(a, c),
{
    assert forall|i: int| 0 <= i < a.simulations.len() implies same_row(
        #[trigger] a.simulations[i],
        c.simulations[i],
    ) by {
        assert(same_row(a.simulations[i], b.simulations[i]));
        assert(same_row(b.simulations[i], c.simulations[i]));
    }
}

/// In the first run, the entries of a collection become settled one by one.
proof fn lemma_first_run_entries(
    c: CacheView,
    found: Seq<CollectionScanView>,
    k: int,
    m: int,
    now: Timestamp,
)
    requires
        c.wf(),
        distinct_entries(found),
        0 <= k < found.len(),
        0 <= m <= found[k].entries.len(),
        settled_upto(c, found, k, 0),
    ensures
        after_entries(c, found[k].uid, found[k].entries.take(m), now).wf(),
        settled_upto(after_entries(c, found[k].uid, found[k].entries.take(m), now), found, k, m),
    decreases m,
{
    let uid = found[k].uid;
    let entries = found[k].entries;
    if m == 0 {
        assert(entries.take(0) =~= Seq::empty());
    } else {
        lemma_first_run_entries(c, found, k, m - 1, now);
        let before = after_entries(c, uid, entries.take(m - 1), now);
        let e = entries[m - 1];
        assert(entries.take(m).drop_last() =~= entries.take(m - 1));
        let d = after_entry(before, uid, e, now);
        assert(d == after_entries(c, uid, entries.take(m), now));
        lemma_after_entry_wf(before, uid, e, now);
        assert forall|k2: int, i2: int|
            in_listing(found, k2, i2) && (k2 < k || (k2 == k && i2 < m)) implies #[trigger] settled_at(
            d,
            found,
            k2,
            i2,
        ) by {
            if k2 == k && i2 == m - 1 {
                lemma_entry_settles(before, uid, e, now);
            } else {
                assert(settled_at(before, found, k2, i2));
                assert(key_at(found, k2, i2) != key_at(found, k, m - 1));
                lemma_settled_elsewhere(before, uid, e, now, found[k2].uid, found[k2].entries[i2]);
            }
        }
    }
}

/// After the first run, every entry of the listing is settled.
proof fn lemma_first_run(c: CacheView, found: Seq<CollectionScanView>, n: int, now: Timestamp)
    requires
        c.wf(),
        distinct_entries(found),
        0 <= n <= found.len(),
    ensures
        after_scan(c, found.take(n), now).wf(),
        settled_upto(after_scan(c, found.take(n), now), found, n, 0),
    decreases n,
{
    if n == 0 {
        assert(found.take(0) =~= Seq::empty());
    } else {
        lemma_first_run(c, found, n - 1, now);
        let before = after_scan(c, found.take(n - 1), now);
        let s = found[n - 1];
        assert(found.take(n).drop_last() =~= found.take(n - 1));
        let declared = before.with_collection(s.uid, s.path);
        lemma_with_collection(before, s.uid, s.path);
        assert forall|k2: int, i2: int| in_listing(found, k2, i2) && k2 < n - 1 implies #[trigger] settled_at(
            declared,
            found,
            k2,
            i2,
        ) by {
            assert(settled_at(before, found, k2, i2));
        }
        lemma_first_run_entries(declared, found, n - 1, s.entries.len() as int, now);
        assert(s.entries.take(s.entries.len() as int) =~= s.entries);
        let d = after_scan(c, found.take(n), now);
        assert(d == after_entries(declared, s.uid, s.entries, now));
        assert forall|k2: int, i2: int| in_listing(found, k2, i2) && k2 < n implies #[trigger] settled_at(
            d,
            found,
            k2,
            i2,
        ) by {
            assert(k2 < n - 1 || (k2 == n - 1 && i2 < s.entries.len()));
        }
    }
}

/// In a run over a listing whose entries are all settled, the entries of a
/// collection stay settled and no row changes.
proof fn lemma_second_run_entries(
    c: CacheView,
    found: Seq<CollectionScanView>,
    k: int,
    m: int,
    now: Timestamp,
)
    requires
        c.wf(),
        distinct_entries(found),
        0 <= k < found.len(),
        0 <= m <= found[k].entries.len(),
        settled_upto(c, found, found.len() as int, 0),
    ensures
        after_entries(c, found[k].uid, found[k].entries.take(m), now).wf(),
        settled_upto(
            after_entries(c, found[k].uid, found[k].entries.take(m), now),
            found,
            found.len() as int,
            0,
        ),
        same_rows(c, after_entries(c, found[k].uid, found[k].entries.take(m), now)),
    decreases m,
{
    let uid = found[k].uid;
    let entries = found[k].entries;
    if m == 0 {
        assert(entries.take(0) =~= Seq::empty());
    } else {
        lemma_second_run_entries(c, found, k, m - 1, now);
        let before = after_entries(c, uid, entries.take(m - 1), now);
        let e = entries[m - 1];
        assert(entries.take(m).drop_last() =~= entries.take(m - 1));
        let d = after_entry(before, uid, e, now);
        assert(d == after_entries(c, uid, entries.take(m), now));
        lemma_after_entry_wf(before, uid, e, now);
        assert(settled_at(before, found, k, m - 1));
        lemma_settled_entry_keeps_rows(before, uid, e, now);
        lemma_same_rows_trans(c, before, d);
        assert forall|k2: int, i2: int| in_listing(found, k2, i2) implies #[trigger] settled_at(
            d,
            found,
            k2,
            i2,
        ) by {
            if k2 == k && i2 == m - 1 {
                lemma_entry_settles(before, uid, e, now);
            } else {
                assert(settled_at(before, found, k2, i2));
                assert(key_at(found, k2, i2) != key_at(found, k, m - 1));
                lemma_settled_elsewhere(before, uid, e, now, found[k2].uid, found[k2].entries[i2]);
            }
        }
    }
}

/// A run over a listing whose entries are all settled changes no row but in
/// the time of its last write.
proof fn lemma_second_run(c: CacheView, found: Seq<CollectionScanView>, n: int, now: Timestamp)
    requires
        c.wf(),
        distinct_entries(found),
        0 <= n <= found.len(),
        settled_upto(c, found, found.len() as int, 0),
    ensures
        after_scan(c, found.take(n), now).wf(),
        settled_upto(after_scan(c, found.take(n), now), found, found.len() as int, 0),
        same_rows(c, after_scan(c, found.take(n), now)),
    decreases n,
{
    if n == 0 {
        assert(found.take(0) =~= Seq::empty());
    } else {
        lemma_second_run(c, found, n - 1, now);
        let before = after_scan(c, found.take(n - 1), now);
        let s = found[n - 1];
        assert(found.take(n).drop_last() =~= found.take(n - 1));
        let declared = before.with_collection(s.uid, s.path);
        lemma_with_collection(before, s.uid, s.path);
        assert forall|k2: int, i2: int| in_listing(found, k2, i2) implies #[trigger] settled_at(
            declared,
            found,
            k2,
            i2,
        ) by {
            assert(settled_at(before, found, k2, i2));
        }
        assert(same_rows(before, declared));
        lemma_second_run_entries(declared, found, n - 1, s.entries.len() as int, now);
        assert(s.entries.take(s.entries.len() as int) =~= s.entries);
        let d = after_scan(c, found.take(n), now);
        assert(d == after_entries(declared, s.uid, s.entries, now));
        lemma_same_rows_trans(before, declared, d);
        lemma_same_rows_trans(c, before, d);
    }
}

/// The collections after each collection of the listing was declared, in the
/// order of the listing.
pub open spec fn declarations(
    collections: Seq<CollectionView>,
    found: Seq<CollectionScanView>,
) -> Seq<CollectionView>
    decreases found.len(),
{
    if found.len() == 0 {
        collections
    } else {
        declared(declarations(collections, found.drop_last()), found.last().uid, found.last().path)
    }
}

/// Declaring the collections of a listing keeps the uids unique.
proof fn lemma_declarations_unique(collections: Seq<CollectionView>, found: Seq<CollectionScanView>)
    requires
        unique_uids(collections),
    ensures
        unique_uids(declarations(collections, found)),
    decreases found.len(),
{
    if found.len() > 0 {
        lemma_declarations_unique(collections, found.drop_last());
        lemma_declared_unique(
            declarations(collections, found.drop_last()),
            found.last().uid,
            found.last().path,
        );
    }
}

/// The collections after a run are those of the cache with the collections of
/// the listing declared: the entries of the listing make no difference to
/// them.
pub proof fn lemma_scan_declares_collections(
    c: CacheView,
    found: Seq<CollectionScanView>,
    now: Timestamp,
)
    requires
        c.wf(),
    ensures
        after_scan(c, found, now).collections == declarations(c.collections, found),
    decreases found.len(),
{
    if found.len() > 0 {
        let rest = found.drop_last();
        let s = found.last();
        lemma_scan_declares_collections(c, rest, now);
        lemma_scan_keeps_rows_unique(c, rest, now);
        let before = after_scan(c, rest, now);
        lemma_with_collection(before, s.uid, s.path);
        lemma_after_entries_wf(before.with_collection(s.uid, s.path), s.uid, s.entries, now);
    }
}

/// A collection that is declared at the end of a listing may as well be
/// declared before the listing too.
proof fn lemma_declared_around(
    collections: Seq<CollectionView>,
    found: Seq<CollectionScanView>,
    uid: Seq<char>,
    path: Seq<char>,
)
    requires
        unique_uids(collections),
    ensures
        declared(declarations(declared(collections, uid, path), found), uid, path) == declared(
            declarations(collections, found),
            uid,
            path,
        ),
    decreases found.len(),
{
    let first = declared(collections, uid, path);
    lemma_declared_unique(collections, uid, path);
    if found.len() == 0 {
        lemma_declared_again(collections, uid, path, path);
    } else {
        let rest = found.drop_last();
        let e = found.last();
        lemma_declared_around(collections, rest, uid, path);
        lemma_declarations_unique(first, rest);
        lemma_declarations_unique(collections, rest);
        lemma_declared_between(declarations(first, rest), e.uid, e.path, uid, path);
        lemma_declared_between(declarations(collections, rest), e.uid, e.path, uid, path);
    }
}

/// Declaring the collections of a listing a second time changes nothing.
pub proof fn lemma_declarations_are_idempotent(
    collections: Seq<CollectionView>,
    found: Seq<CollectionScanView>,
)
    requires
        unique_uids(collections),
    ensures
        declarations(declarations(collections, found), found) == declarations(collections, found),
    decreases found.len(),
{
    if found.len() > 0 {
        let rest = found.drop_last();
        let d = found.last();
        let before = declarations(collections, rest);
        lemma_declarations_are_idempotent(collections, rest);
        lemma_declarations_unique(collections, rest);
        lemma_declared_around(before, rest, d.uid, d.path);
    }
}

/// Idempotence: a second sync run over the same listing adds no row and
/// changes no row but in the time of its last write, whenever the two runs
/// take place; and it leaves the collections as they were. It is asked of the
/// listing that no two of its entries are cached under the same collection
/// uid and name.
pub proof fn lemma_scan_is_idempotent(
    c: CacheView,
    found: Seq<CollectionScanView>,
    first: Timestamp,
    second: Timestamp,
)
    requires
        c.wf(),
        distinct_entries(found),
    ensures
        same_rows(after_scan(c, found, first), after_scan(after_scan(c, found, first), found, second)),
        after_scan(after_scan(c, found, first), found, second).collections == after_scan(
            c,
            found,
            first,
        ).collections,
{
    let n = found.len() as int;
    assert(found.take(n) =~= found);
    lemma_first_run(c, found, n, first);
    lemma_second_run(after_scan(c, found, first), found, n, second);
    lemma_scan_declares_collections(c, found, first);
    lemma_scan_declares_collections(after_scan(c, found, first), found, second);
    lemma_declarations_are_idempotent(c.collections, found);
}

/// The row of the entry holds what the entry decodes to, and was written at
/// the time `now`.
pub open spec fn written(c: CacheView, uid: Seq<char>, e: EntryScanView, now: Timestamp) -> bool {
    match (c.row_at(uid, e.name), decoded(e)) {
        (Some(i), Some((meta, parameters))) => 0 <= i < c.simulations.len()
            && c.simulations[i].content() == (uid, e.name, meta, parameters)
            && c.simulations[i].last_sync_time == Some(now),
        _ => false,
    }
}

/// Where a run stands with the entry at `(k, i)`: before the run has come to
/// it, its row was last written when it was at the start; after, its row is
/// written anew.
pub open spec fn resync_stage(
    d: CacheView,
    start: CacheView,
    found: Seq<CollectionScanView>,
    k: int,
    i: int,
    now: Timestamp,
    passed: bool,
) -> bool {
    if passed {
        written(d, found[k].uid, found[k].entries[i], now)
    } else {
        d.sync_time(found[k].uid, found[k].entries[i].name) == start.sync_time(
            found[k].uid,
            found[k].entries[i].name,
        )
    }
}

/// The entry at `(k, i)` was modified after its row was last written, and can
/// be decoded.
pub open spec fn changed_since(c: CacheView, found: Seq<CollectionScanView>, k: int, i: int) -> bool {
    &&& in_listing(found, k, i)
    &&& c.sync_time(found[k].uid, found[k].entries[i].name) matches Some(last)
    &&& found[k].entries[i].mtime matches Some(mtime)
    &&& mtime.spec_is_after(last)
    &&& decoded(found[k].entries[i]) is Some
}

/// Dealing with one entry takes the run one step further with the entry at
/// `(k0, i0)`.
proof fn lemma_resync_step(
    d: CacheView,
    start: CacheView,
    found: Seq<CollectionScanView>,
    k: int,
    i: int,
    k0: int,
    i0: int,
    now: Timestamp,
)
    requires
        d.wf(),
        distinct_entries(found),
        changed_since(start, found, k0, i0),
        in_listing(found, k, i),
        resync_stage(d, start, found, k0, i0, now, k0 < k || (k0 == k && i0 < i)),
    ensures
        resync_stage(
            after_entry(d, found[k].uid, found[k].entries[i], now),
            start,
            found,
            k0,
            i0,
            now,
            k0 < k || (k0 == k && i0 <= i),
        ),
{
    let uid = found[k].uid;
    let e = found[k].entries[i];
    let uid0 = found[k0].uid;
    let e0 = found[k0].entries[i0];
    if k == k0 && i == i0 {
        lemma_changed_entry_is_resynced(d, uid, e, now);
        lemma_first_where(
            after_entry(d, uid, e, now).simulations,
            |r: CacheRowView| r.collection_uid == uid && r.name == e.name,
        );
    } else {
        assert(key_at(found, k, i) != key_at(found, k0, i0));
        match decoded(e) {
            Some((meta, parameters)) => {
                if due(d, uid, e) && !d.full_for(uid, e.name) {
                    lemma_with_simulation_elsewhere(d, uid, e.name, meta, parameters, now, uid0, e0.name);
                    lemma_with_simulation(d, uid, e.name, meta, parameters, now);
                }
            },
            None => {},
        }
    }
}

/// Dealing with the entries of a collection takes the run further with the
/// entry at `(k0, i0)`.
proof fn lemma_resync_entries(
    d: CacheView,
    start: CacheView,
    found: Seq<CollectionScanView>,
    k: int,
    m: int,
    k0: int,
    i0: int,
    now: Timestamp,
)
    requires
        d.wf(),
        distinct_entries(found),
        changed_since(start, found, k0, i0),
        0 <= k < found.len(),
        0 <= m <= found[k].entries.len(),
        resync_stage(d, start, found, k0, i0, now, k0 < k),
    ensures
        after_entries(d, found[k].uid, found[k].entries.take(m), now).wf(),
        resync_stage(
            after_entries(d, found[k].uid, found[k].entries.take(m), now),
            start,
            found,
            k0,
            i0,
            now,
            k0 < k || (k0 == k && i0 < m),
        ),
    decreases m,
{
    let uid = found[k].uid;
    let entries = found[k].entries;
    if m == 0 {
        assert(entries.take(0) =~= Seq::empty());
    } else {
        lemma_resync_entries(d, start, found, k, m - 1, k0, i0, now);
        let before = after_entries(d, uid, entries.take(m - 1), now);
        assert(entries.take(m).drop_last() =~= entries.take(m - 1));
        lemma_after_entry_wf(before, uid, entries[m - 1], now);
        lemma_resync_step(before, start, found, k, m - 1, k0, i0, now);
    }
}

/// A run over the first `n` collections takes the run as far with the entry
/// at `(k0, i0)`.
proof fn lemma_resync_scan(
    start: CacheView,
    found: Seq<CollectionScanView>,
    n: int,
    k0: int,
    i0: int,
    now: Timestamp,
)
    requires
        start.wf(),
        distinct_entries(found),
        changed_since(start, found, k0, i0),
        0 <= n <= found.len(),
    ensures
        after_scan(start, found.take(n), now).wf(),
        resync_stage(after_scan(start, found.take(n), now), start, found, k0, i0, now, k0 < n),
    decreases n,
{
    if n == 0 {
        assert(found.take(0) =~= Seq::empty());
    } else {
        lemma_resync_scan(start, found, n - 1, k0, i0, now);
        let before = after_scan(start, found.take(n - 1), now);
        let s = found[n - 1];
        assert(found.take(n).drop_last() =~= found.take(n - 1));
        let declared = before.with_collection(s.uid, s.path);
        lemma_with_collection(before, s.uid, s.path);
        lemma_resync_entries(declared, start, found, n - 1, s.entries.len() as int, k0, i0, now);
        assert(s.entries.take(s.entries.len() as int) =~= s.entries);
    }
}

/// Change-triggered resync, for a whole run: every entry of the listing whose
/// container was modified strictly after its row was last written, and can be
/// decoded, has after the run a row that holds what it decodes to and the
/// time of the run. It is asked of the listing that no two of its entries are
/// cached under the same collection uid and name.
pub proof fn lemma_scan_resyncs_changed_entries(
    c: CacheView,
    found: Seq<CollectionScanView>,
    now: Timestamp,
)
    requires
        c.wf(),
        distinct_entries(found),
    ensures
        forall|k: int, i: int| #[trigger]
            changed_since(c, found, k, i) ==> written(
                after_scan(c, found, now),
                found[k].uid,
                found[k].entries[i],
                now,
            ),
{
    assert forall|k: int, i: int| #[trigger] changed_since(c, found, k, i) implies written(
        after_scan(c, found, now),
        found[k].uid,
        found[k].entries[i],
        now,
    ) by {
        assert(found.take(found.len() as int) =~= found);
        lemma_resync_scan(c, found, found.len() as int, k, i, now);
    }
}

} // verus!
