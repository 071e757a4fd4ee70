//! The sync run: which entries are decoded again, and what the cache holds
//! once a listing of collections has been gone through.

use vstd::prelude::*;
use crate::db::{
    get_sim_sync_time, lemma_with_simulation, upsert_collection, upsert_simulation_at, written_at,
    Cache, CacheRow, CacheRowView, CacheView, Collection, StoreError,
};
use crate::entry::{load_entry_meta, spec_load_entry_meta, RawEntry, RawEntryView};
use crate::search::{lemma_selected_none, lemma_selected_step, selected};
use crate::types::{
    lemma_position_of, position_of, unique_names, MetaData, MetaDataView, Parameters,
    ParameterView, Timestamp,
};

verus! {

/// What was found of one entry: its name, when its result container was last
/// modified (`None` if that could not be read), and what was read out of the
/// container (`None` if it is missing or cannot be opened).
#[derive(Debug)]
pub struct EntryScan {
    pub name: String,
    pub mtime: Option<Timestamp>,
    pub raw: Option<RawEntry>,
}

/// An `EntryScan` as a value.
pub struct EntryScanView {
    pub name: Seq<char>,
    pub mtime: Option<Timestamp>,
    pub raw: Option<RawEntryView>,
}

impl View for EntryScan {
    type V = EntryScanView;

    open spec fn view(&self) -> EntryScanView {
        EntryScanView {
            name: self.name@,
            mtime: self.mtime,
            raw: match self.raw {
                Some(r) => Some(r@),
                None => None,
            },
        }
    }
}

/// What was found of one collection: its directory, its uid and its entries.
#[derive(Debug)]
pub struct CollectionScan {
    pub path: String,
    pub uid: String,
    pub entries: Vec<EntryScan>,
}

/// A `CollectionScan` as a value.
pub struct CollectionScanView {
    pub path: Seq<char>,
    pub uid: Seq<char>,
    pub entries: Seq<EntryScanView>,
}

impl View for CollectionScan {
    type V = CollectionScanView;

    open spec fn view(&self) -> CollectionScanView {
        CollectionScanView {
            path: self.path@,
            uid: self.uid@,
            entries: self.entries@.map_values(|e: EntryScan| e@),
        }
    }
}

/// The listing of a whole run, as a value.
pub open spec fn scan_view(found: Seq<CollectionScan>) -> Seq<CollectionScanView> {
    found.map_values(|s: CollectionScan| s@)
}

/// What a sync run did with one entry.
#[derive(Clone, Copy, Debug, PartialEq, Eq, Structural)]
pub enum EntryOutcome {
    /// The modification time of the container could not be read.
    NoMtime,
    /// The container is no newer than the entry's row.
    Unchanged,
    /// The container could not be decoded.
    Unreadable,
    /// The entry was decoded and written to the row `id`.
    Synced { id: i64 },
}

/// Whether a container modified at `mtime` is decoded again, given when its
/// entry was last written: only if it was modified strictly later, or the
/// entry was never written.
pub open spec fn spec_needs_sync(mtime: Timestamp, last_sync_time: Option<Timestamp>) -> bool {
    match last_sync_time {
        Some(t) => mtime.spec_is_after(t),
        None => true,
    }
}

/// Whether a container modified at `mtime` is decoded again.
#[verifier::when_used_as_spec(spec_needs_sync)]
pub fn needs_sync(mtime: Timestamp, last_sync_time: Option<Timestamp>) -> (r: bool)
    ensures
        r == spec_needs_sync(mtime, last_sync_time),
{
    match last_sync_time {
        Some(t) => mtime.is_after(t),
        None => true,
    }
}

/// What the container of an entry decodes to, if it was there to be read.
pub open spec fn decoded_raw(raw: Option<RawEntryView>) -> Option<(MetaDataView, Seq<ParameterView>)> {
    match raw {
        Some(r) => spec_load_entry_meta(r),
        None => None,
    }
}

/// What the entry's container decodes to.
pub open spec fn decoded(e: EntryScanView) -> Option<(MetaDataView, Seq<ParameterView>)> {
    decoded_raw(e.raw)
}

/// The entry is to be written: its container is newer than its row and can
/// be decoded.
pub open spec fn due(c: CacheView, uid: Seq<char>, e: EntryScanView) -> bool {
    &&& e.mtime matches Some(mtime)
    &&& spec_needs_sync(mtime, c.sync_time(uid, e.name))
    &&& decoded(e) is Some
}

/// The entry is to be written, and the cache has no id left for its row.
pub open spec fn entry_fails(c: CacheView, uid: Seq<char>, e: EntryScanView) -> bool {
    due(c, uid, e) && c.full_for(uid, e.name)
}

/// The cache after a sync run at the time `now` has dealt with one entry.
pub open spec fn after_entry(c: CacheView, uid: Seq<char>, e: EntryScanView, now: Timestamp) -> CacheView {
    match decoded(e) {
        Some((meta, parameters)) => if due(c, uid, e) && !c.full_for(uid, e.name) {
            c.with_simulation(uid, e.name, meta, parameters, now)
        } else {
            c
        },
        None => c,
    }
}

/// What a sync run reports of one entry that it could deal with.
pub open spec fn outcome_of(c: CacheView, uid: Seq<char>, e: EntryScanView) -> EntryOutcome {
    match e.mtime {
        None => EntryOutcome::NoMtime,
        Some(mtime) => if !spec_needs_sync(mtime, c.sync_time(uid, e.name)) {
            EntryOutcome::Unchanged
        } else if decoded(e) is None {
            EntryOutcome::Unreadable
        } else {
            EntryOutcome::Synced { id: c.id_for(uid, e.name) as i64 }
        },
    }
}

/// What is to be done next with an entry.
#[derive(Clone, Copy, Debug, PartialEq, Eq, Structural)]
pub enum EntryPlan {
    /// Nothing: the entry is passed over, with this outcome.
    Skip(EntryOutcome),
    /// The container is to be read and decoded.
    Decode,
}

/// What is to be done with the entry `name` of the collection `uid`, given
/// when its container was last modified: nothing where that is not known or
/// the container is no newer than the entry's row.
pub open spec fn spec_plan_entry(
    c: CacheView,
    uid: Seq<char>,
    name: Seq<char>,
    mtime: Option<Timestamp>,
) -> EntryPlan {
    match mtime {
        None => EntryPlan::Skip(EntryOutcome::NoMtime),
        Some(t) => if spec_needs_sync(t, c.sync_time(uid, name)) {
            EntryPlan::Decode
        } else {
            EntryPlan::Skip(EntryOutcome::Unchanged)
        },
    }
}

/// Decides whether the container of an entry is to be read, before anything
/// is read from it.
pub fn plan_entry(cache: &Cache, uid: &str, name: &str, mtime: Option<Timestamp>) -> (r: EntryPlan)
    ensures
        r == spec_plan_entry(cache@, uid@, name@, mtime),
{
    match mtime {
        None => EntryPlan::Skip(EntryOutcome::NoMtime),
        Some(t) => {
            if needs_sync(t, get_sim_sync_time(cache, uid, name)) {
                EntryPlan::Decode
            } else {
                EntryPlan::Skip(EntryOutcome::Unchanged)
            }
        },
    }
}

/// What was read of a container, as a value.
pub open spec fn raw_view(raw: Option<&RawEntry>) -> Option<RawEntryView> {
    match raw {
        Some(r) => Some(r@),
        None => None,
    }
}

/// The cache after what was read of an entry's container has been written at
/// the time `now`: nothing changes where the container cannot be decoded, or
/// no id is left for the entry's row.
pub open spec fn after_decode(
    c: CacheView,
    uid: Seq<char>,
    name: Seq<char>,
    raw: Option<RawEntryView>,
    now: Timestamp,
) -> CacheView {
    match decoded_raw(raw) {
        Some((meta, parameters)) => if c.full_for(uid, name) {
            c
        } else {
            c.with_simulation(uid, name, meta, parameters, now)
        },
        None => c,
    }
}

/// What is reported of an entry whose container was read.
pub open spec fn decode_outcome(
    c: CacheView,
    uid: Seq<char>,
    name: Seq<char>,
    raw: Option<RawEntryView>,
) -> EntryOutcome {
    if decoded_raw(raw) is None {
        EntryOutcome::Unreadable
    } else {
        EntryOutcome::Synced { id: c.id_for(uid, name) as i64 }
    }
}

/// Decodes what was read of an entry's container and writes it at the time
/// `now`. A container that is missing or cannot be decoded changes nothing.
/// Fails, and changes nothing, only where the container can be decoded and
/// the cache has no id left for the entry.
pub fn finish_entry_at(
    cache: &mut Cache,
    uid: &str,
    name: &str,
    raw: Option<&RawEntry>,
    now: Timestamp,
) -> (r: Result<EntryOutcome, StoreError>)
    requires
        old(cache).wf(),
    ensures
        final(cache).wf(),
        final(cache)@ == after_decode(old(cache)@, uid@, name@, raw_view(raw), now),
        match r {
            Ok(outcome) => outcome == decode_outcome(old(cache)@, uid@, name@, raw_view(raw)) && !(
            decoded_raw(raw_view(raw)) is Some && old(cache)@.full_for(uid@, name@)),
            Err(e) => e == StoreError::Full && decoded_raw(raw_view(raw)) is Some && old(
                cache,
            )@.full_for(uid@, name@),
        },
{
    let loaded = match raw {
        Some(r) => load_entry_meta(r),
        None => None,
    };
    match loaded {
        Some((meta, parameters)) => {
            match upsert_simulation_at(cache, uid, name, &meta, &parameters, now) {
                Ok(id) => Ok(EntryOutcome::Synced { id }),
                Err(e) => Err(e),
            }
        },
        None => Ok(EntryOutcome::Unreadable),
    }
}

/// Decodes what was read of an entry's container and writes it at the
/// wall-clock time of the call, as `finish_entry_at` does at a time given.
pub fn finish_entry(cache: &mut Cache, uid: &str, name: &str, raw: Option<&RawEntry>) -> (r: Result<
    EntryOutcome,
    StoreError,
>)
    requires
        old(cache).wf(),
    ensures
        final(cache).wf(),
        final(cache)@ == after_decode(
            old(cache)@,
            uid@,
            name@,
            raw_view(raw),
            written_at(final(cache)@, uid@, name@),
        ),
        match r {
            Ok(outcome) => outcome == decode_outcome(old(cache)@, uid@, name@, raw_view(raw)) && !(
            decoded_raw(raw_view(raw)) is Some && old(cache)@.full_for(uid@, name@)),
            Err(e) => e == StoreError::Full && decoded_raw(raw_view(raw)) is Some && old(
                cache,
            )@.full_for(uid@, name@),
        },
{
    let now = Timestamp::now();
    proof {
        match decoded_raw(raw_view(raw)) {
            Some((meta, parameters)) => {
                if !cache@.full_for(uid@, name@) {
                    lemma_with_simulation(cache@, uid@, name@, meta, parameters, now);
                }
            },
            None => {},
        }
    }
    finish_entry_at(cache, uid, name, raw, now)
}

/// Deals with one entry of the collection `uid` in a sync run at the time
/// `now`. An entry whose container is no newer than its row is not decoded;
/// one that cannot be decoded is not written. Fails, and changes nothing,
/// only where the entry is to be written and the cache has no id left.
pub fn sync_entry(cache: &mut Cache, uid: &str, e: &EntryScan, now: Timestamp) -> (r: Result<
    EntryOutcome,
    StoreError,
>)
    requires
        old(cache).wf(),
    ensures
        final(cache).wf(),
        final(cache)@ == after_entry(old(cache)@, uid@, e@, now),
        match r {
            Ok(outcome) => !entry_fails(old(cache)@, uid@, e@) && outcome == outcome_of(
                old(cache)@,
                uid@,
                e@,
            ),
            Err(err) => err == StoreError::Full && entry_fails(old(cache)@, uid@, e@),
        },
{
    match plan_entry(cache, uid, e.name.as_str(), e.mtime) {
        EntryPlan::Skip(outcome) => Ok(outcome),
        EntryPlan::Decode => finish_entry_at(cache, uid, e.name.as_str(), e.raw.as_ref(), now),
    }
}

/// The cache after a sync run at the time `now` has dealt with the entries of
/// one collection, in their order. An entry for which the cache has no id left
/// ends the run; here it is passed over.
pub open spec fn after_entries(
    c: CacheView,
    uid: Seq<char>,
    entries: Seq<EntryScanView>,
    now: Timestamp,
) -> CacheView
    decreases entries.len(),
{
    if entries.len() == 0 {
        c
    } else {
        after_entry(after_entries(c, uid, entries.drop_last(), now), uid, entries.last(), now)
    }
}

/// Some entry of the collection is to be written when the cache has no id
/// left for it.
pub open spec fn entries_fail(
    c: CacheView,
    uid: Seq<char>,
    entries: Seq<EntryScanView>,
    now: Timestamp,
) -> bool {
    exists|i: int|
        0 <= i < entries.len() && entry_fails(
            #[trigger] after_entries(c, uid, entries.take(i), now),
            uid,
            entries[i],
        )
}

/// The cache after a sync run at the time `now` has dealt with one
/// collection: the collection is declared, then its entries are dealt with.
pub open spec fn after_collection(c: CacheView, s: CollectionScanView, now: Timestamp) -> CacheView {
    after_entries(c.with_collection(s.uid, s.path), s.uid, s.entries, now)
}

/// Some entry of the collection is to be written when the cache has no id
/// left for it, once the collection is declared.
pub open spec fn collection_fails(c: CacheView, s: CollectionScanView, now: Timestamp) -> bool {
    entries_fail(c.with_collection(s.uid, s.path), s.uid, s.entries, now)
}

/// The cache after a sync run at the time `now` over all that was found.
pub open spec fn after_scan(c: CacheView, found: Seq<CollectionScanView>, now: Timestamp) -> CacheView
    decreases found.len(),
{
    if found.len() == 0 {
        c
    } else {
        after_collection(after_scan(c, found.drop_last(), now), found.last(), now)
    }
}

/// Somewhere in the run an entry is to be written when the cache has no id
/// left for it.
pub open spec fn scan_fails(c: CacheView, found: Seq<CollectionScanView>, now: Timestamp) -> bool {
    exists|k: int|
        0 <= k < found.len() && collection_fails(
            #[trigger] after_scan(c, found.take(k), now),
            found[k],
            now,
        )
}

/// What the run reports of the entries of one collection.
pub open spec fn entries_report(
    c: CacheView,
    uid: Seq<char>,
    entries: Seq<EntryScanView>,
    now: Timestamp,
) -> Seq<EntryOutcome> {
    Seq::new(
        entries.len(),
        |i: int| outcome_of(after_entries(c, uid, entries.take(i), now), uid, entries[i]),
    )
}

/// What the run reports: for each collection, the outcome of each entry.
pub open spec fn scan_report(c: CacheView, found: Seq<CollectionScanView>, now: Timestamp) -> Seq<
    Seq<EntryOutcome>,
> {
    Seq::new(
        found.len(),
        |k: int|
            entries_report(
                after_scan(c, found.take(k), now).with_collection(found[k].uid, found[k].path),
                found[k].uid,
                found[k].entries,
                now,
            ),
    )
}

/// One step of `after_entries`.
proof fn lemma_after_entries_step(
    c: CacheView,
    uid: Seq<char>,
    entries: Seq<EntryScanView>,
    now: Timestamp,
    i: int,
)
    requires
        0 <= i < entries.len(),
    ensures
        after_entries(c, uid, entries.take(i + 1), now) == after_entry(
            after_entries(c, uid, entries.take(i), now),
            uid,
            entries[i],
            now,
        ),
{
    assert(entries.take(i + 1).drop_last() =~= entries.take(i));
}

/// One step of `after_scan`.
proof fn lemma_after_scan_step(c: CacheView, found: Seq<CollectionScanView>, now: Timestamp, k: int)
    requires
        0 <= k < found.len(),
    ensures
        after_scan(c, found.take(k + 1), now) == after_collection(
            after_scan(c, found.take(k), now),
            found[k],
            now,
        ),
{
    assert(found.take(k + 1).drop_last() =~= found.take(k));
}

/// Deals with the entries of one collection, in their order, and reports the
/// outcome of each. The first entry for which the cache has no id left ends
/// the run with an error.
pub fn sync_collection(cache: &mut Cache, s: &CollectionScan, now: Timestamp) -> (r: Result<
    Vec<EntryOutcome>,
    StoreError,
>)
    requires
        old(cache).wf(),
    ensures
        final(cache).wf(),
        match r {
            Ok(report) => !collection_fails(old(cache)@, s@, now) && final(cache)@
                == after_collection(old(cache)@, s@, now) && report@ == entries_report(
                old(cache)@.with_collection(s@.uid, s@.path),
                s@.uid,
                s@.entries,
                now,
            ),
            Err(err) => err == StoreError::Full && collection_fails(old(cache)@, s@, now),
        },
{
    upsert_collection(cache, s.uid.as_str(), s.path.as_str());
    let ghost start = cache@;
    let ghost uid = s@.uid;
    let ghost entries = s@.entries;
    let mut report: Vec<EntryOutcome> = Vec::new();
    let mut i: usize = 0;
    assert(entries.take(0) =~= Seq::empty());
    while i < s.entries.len()
        invariant
            i <= s.entries.len(),
            uid == s@.uid,
            entries == s@.entries,
            start == old(cache)@.with_collection(s@.uid, s@.path),
            cache.wf(),
            cache@ == after_entries(start, uid, entries.take(i as int), now),
            report@.len() == i,
            forall|j: int|
                0 <= j < i ==> !entry_fails(
                    #[trigger] after_entries(start, uid, entries.take(j), now),
                    uid,
                    entries[j],
                ),
            forall|j: int|
                0 <= j < i ==> report@[j] == outcome_of(
                    after_entries(start, uid, entries.take(j), now),
                    uid,
                    entries[j],
                ),
        decreases s.entries.len() - i,
    {
        proof {
            lemma_after_entries_step(start, uid, entries, now, i as int);
        }
        match sync_entry(cache, s.uid.as_str(), &s.entries[i], now) {
            Ok(outcome) => {
                report.push(outcome);
            },
            Err(err) => {
                assert(entry_fails(
                    after_entries(start, uid, entries.take(i as int), now),
                    uid,
                    entries[i as int],
                ));
                return Err(err);
            },
        }
        i += 1;
    }
    assert(entries.take(i as int) =~= entries);
    assert(report@ =~= entries_report(start, uid, entries, now));
    Ok(report)
}

/// A sync run at the time `now` over all that was found: each collection is
/// declared and its entries are dealt with, in the order of the listing. The
/// run is all or nothing: where the cache has no id left for an entry that is
/// to be written, the run ends with an error and the cache is given up.
pub fn scan(cache: Cache, found: &Vec<CollectionScan>, now: Timestamp) -> (r: Result<
    (Cache, Vec<Vec<EntryOutcome>>),
    StoreError,
>)
    requires
        cache.wf(),
    ensures
        match r {
            Ok((after, report)) => !scan_fails(cache@, scan_view(found@), now) && after.wf()
                && after@ == after_scan(cache@, scan_view(found@), now) && report@.len()
                == found@.len() && forall|k: int|
                0 <= k < found@.len() ==> (#[trigger] report@[k])@ == scan_report(
                    cache@,
                    scan_view(found@),
                    now,
                )[k],
            Err(err) => err == StoreError::Full && scan_fails(cache@, scan_view(found@), now),
        },
{
    let ghost start = cache@;
    let ghost all = scan_view(found@);
    let mut current = cache;
    let mut report: Vec<Vec<EntryOutcome>> = Vec::new();
    let mut k: usize = 0;
    assert(all.take(0) =~= Seq::empty());
    while k < found.len()
        invariant
            k <= found.len(),
            all == scan_view(found@),
            start == cache@,
            current.wf(),
            current@ == after_scan(start, all.take(k as int), now),
            report@.len() == k,
            forall|j: int|
                0 <= j < k ==> !collection_fails(
                    #[trigger] after_scan(start, all.take(j), now),
                    all[j],
                    now,
                ),
            forall|j: int|
                0 <= j < k ==> (#[trigger] report@[j])@ == scan_report(start, all, now)[j],
        decreases found.len() - k,
    {
        proof {
            lemma_after_scan_step(start, all, now, k as int);
        }
        match sync_collection(&mut current, &found[k], now) {
            Ok(outcomes) => {
                report.push(outcomes);
            },
            Err(err) => {
                assert(collection_fails(after_scan(start, all.take(k as int), now), all[k as int], now));
                return Err(err);
            },
        }
        k += 1;
    }
    assert(all.take(k as int) =~= all);
    Ok((current, report))
}

/// The collections of the cache, each as its uid and its path, in the order in
/// which they were last declared.
pub fn ls_collections(cache: &Cache) -> (r: Vec<(String, String)>)
    ensures
        r@.len() == cache@.collections.len(),
        forall|i: int|
            0 <= i < r@.len() ==> (#[trigger] r@[i]).0@ == cache@.collections[i].uid && r@[i].1@
                == cache@.collections[i].path,
{
    let all = cache.collections();
    let mut r: Vec<(String, String)> = Vec::new();
    let mut i: usize = 0;
    while i < all.len()
        invariant
            i <= all.len(),
            all@.map_values(|c: Collection| c@) == cache@.collections,
            r@.len() == i,
            forall|j: int|
                0 <= j < i ==> (#[trigger] r@[j]).0@ == cache@.collections[j].uid && r@[j].1@
                    == cache@.collections[j].path,
        decreases all.len() - i,
    {
        assert(all@[i as int]@ == cache@.collections[i as int]);
        r.push((all[i].uid.clone(), all[i].path.clone()));
        i += 1;
    }
    r
}

/// `seen` with the names of `parameters` that it did not hold yet, each with
/// the value that `parameters` gives it.
pub open spec fn with_new_names(seen: Seq<ParameterView>, parameters: Seq<ParameterView>) -> Seq<
    ParameterView,
>
    decreases parameters.len(),
{
    if parameters.len() == 0 {
        seen
    } else {
        let before = with_new_names(seen, parameters.drop_last());
        let p = parameters.last();
        if position_of(before, p.name) is Some {
            before
        } else {
            before.push(p)
        }
    }
}

/// The parameter names that the rows of the collection `uid` use, each with
/// the value of the first row that uses it, in the order in which the names
/// are first met.
pub open spec fn parameter_space(rows: Seq<CacheRowView>, uid: Seq<char>) -> Seq<ParameterView>
    decreases rows.len(),
{
    if rows.len() == 0 {
        Seq::empty()
    } else {
        let before = parameter_space(rows.drop_last(), uid);
        if rows.last().collection_uid == uid {
            with_new_names(before, rows.last().parameters)
        } else {
            before
        }
    }
}

/// Adding new names keeps the names unique, and a name that was seen keeps
/// its place and its value.
pub proof fn lemma_with_new_names(seen: Seq<ParameterView>, parameters: Seq<ParameterView>)
    requires
        unique_names(seen),
    ensures
        unique_names(with_new_names(seen, parameters)),
        seen.len() <= with_new_names(seen, parameters).len(),
        forall|i: int| 0 <= i < seen.len() ==> with_new_names(seen, parameters)[i] == seen[i],
        forall|j: int|
            0 <= j < parameters.len() ==> position_of(
                with_new_names(seen, parameters),
                #[trigger] parameters[j].name,
            ) is Some,
    decreases parameters.len(),
{
    if parameters.len() > 0 {
        let rest = parameters.drop_last();
        let before = with_new_names(seen, rest);
        let p = parameters.last();
        let after = with_new_names(seen, parameters);
        lemma_with_new_names(seen, rest);
        lemma_position_of(before, p.name);
        lemma_position_of(after, p.name);
        assert forall|j: int| 0 <= j < parameters.len() implies position_of(
            after,
            #[trigger] parameters[j].name,
        ) is Some by {
            lemma_position_of(after, parameters[j].name);
            if j < rest.len() {
                assert(rest[j] == parameters[j]);
                lemma_position_of(before, parameters[j].name);
                let at = position_of(before, parameters[j].name)->0;
                assert(after[at].name == parameters[j].name);
            } else {
                if position_of(before, p.name) is None {
                    assert(after[before.len() as int].name == p.name);
                }
            }
        }
    }
}

/// The parameter space names each parameter once.
pub proof fn lemma_parameter_space_unique(rows: Seq<CacheRowView>, uid: Seq<char>)
    ensures
        unique_names(parameter_space(rows, uid)),
    decreases rows.len(),
{
    if rows.len() > 0 {
        lemma_parameter_space_unique(rows.drop_last(), uid);
        lemma_with_new_names(parameter_space(rows.drop_last(), uid), rows.last().parameters);
    }
}

/// The parameter names that the cached entries of `collection` use, each with
/// an example: the value that the first entry using the name gives it.
pub fn ls_params(cache: &Cache, collection: &str) -> (r: Parameters)
    ensures
        r@ == parameter_space(cache@.simulations, collection@),
        r.wf(),
{
    let rows = cache.simulations();
    let ghost all = cache@.simulations;
    let mut r = Parameters::new();
    let mut i: usize = 0;
    assert(all.take(0) =~= Seq::empty());
    while i < rows.len()
        invariant
            i <= rows.len(),
            rows@.map_values(|r: CacheRow| r@) == all,
            r.wf(),
            r@ == parameter_space(all.take(i as int), collection@),
        decreases rows.len() - i,
    {
        let row = &rows[i];
        assert(row@ == all[i as int]);
        assert(all.take(i + 1).drop_last() =~= all.take(i as int));
        if row.collection_uid.as_str().eq(collection) {
            let ghost seen = r@;
            let ghost parameters = row.parameters@;
            let mut j: usize = 0;
            assert(parameters.take(0) =~= Seq::empty());
            while j < row.parameters.len()
                invariant
                    j <= parameters.len(),
                    parameters == row.parameters@,
                    r.wf(),
                    r@ == with_new_names(seen, parameters.take(j as int)),
                decreases parameters.len() - j,
            {
                let p = row.parameters.at(j);
                assert(parameters.take(j + 1).drop_last() =~= parameters.take(j as int));
                if r.position(p.name.as_str()).is_none() {
                    proof {
                        lemma_position_of(r@, p@.name);
                    }
                    r.insert(p.name.clone(), p.value.duplicate());
                }
                j += 1;
            }
            assert(parameters.take(j as int) =~= parameters);
        }
        i += 1;
    }
    assert(all.take(i as int) =~= all);
    r
}

/// What is written beside the container of one entry when its metadata is
/// migrated.
#[derive(Debug)]
pub struct Migration {
    pub name: String,
    pub meta: MetaData,
    pub parameters: Parameters,
}

/// A `Migration` as a value.
pub struct MigrationView {
    pub name: Seq<char>,
    pub meta: MetaDataView,
    pub parameters: Seq<ParameterView>,
}

impl View for Migration {
    type V = MigrationView;

    open spec fn view(&self) -> MigrationView {
        MigrationView { name: self.name@, meta: self.meta@, parameters: self.parameters@ }
    }
}

/// What is written for the entry, if its container can be decoded.
pub open spec fn migration_of(e: EntryScanView) -> Option<MigrationView> {
    match decoded(e) {
        Some((meta, parameters)) => Some(MigrationView { name: e.name, meta, parameters }),
        None => None,
    }
}

/// What a migration writes: for each entry whose container can be decoded,
/// in the order of the listing, what it decodes to.
pub open spec fn spec_migrate(entries: Seq<EntryScanView>) -> Seq<MigrationView> {
    selected(
        entries,
        |e: EntryScanView| migration_of(e) is Some,
        |e: EntryScanView| migration_of(e)->0,
    )
}

/// What is to be written beside the containers of the entries: the decoded
/// metadata and parameters of each entry that can be decoded. An entry that
/// cannot is passed over.
pub fn migrate(entries: &Vec<EntryScan>) -> (r: Vec<Migration>)
    ensures
        r@.map_values(|m: Migration| m@) == spec_migrate(entries@.map_values(|e: EntryScan| e@)),
{
    let ghost all = entries@.map_values(|e: EntryScan| e@);
    let ghost p = |e: EntryScanView| migration_of(e) is Some;
    let ghost f = |e: EntryScanView| migration_of(e)->0;
    let mut r: Vec<Migration> = Vec::new();
    let mut i: usize = 0;
    proof {
        lemma_selected_none(all, p, f);
        assert(r@.map_values(|m: Migration| m@) =~= selected(all.take(0), p, f));
    }
    while i < entries.len()
        invariant
            i <= entries.len(),
            all == entries@.map_values(|e: EntryScan| e@),
            p == |e: EntryScanView| migration_of(e) is Some,
            f == |e: EntryScanView| migration_of(e)->0,
            r@.map_values(|m: Migration| m@) == selected(all.take(i as int), p, f),
        decreases entries.len() - i,
    {
        proof {
            lemma_selected_step(all, p, f, i as int);
        }
        let e = &entries[i];
        let loaded = match &e.raw {
            Some(raw) => load_entry_meta(raw),
            None => None,
        };
        match loaded {
            Some((meta, parameters)) => {
                let ghost before = r@.map_values(|m: Migration| m@);
                let m = Migration { name: e.name.clone(), meta, parameters };
                r.push(m);
                assert(r@.map_values(|m: Migration| m@) =~= before.push(m@));
            },
            None => {},
        }
        i += 1;
    }
    assert(all.take(i as int) =~= all);
    r
}

} // verus!
