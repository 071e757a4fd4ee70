//! The sync cache: the collections that were seen, and one row for each entry
//! that was decoded, found again by collection uid and entry name.

use vstd::prelude::*;
use crate::search::{
    first_where, lemma_filter_all, lemma_filter_commutes, lemma_filter_push, lemma_filter_twice,
    lemma_first_where,
};
use crate::text::opt_text;
use crate::types::{
    settings_applied, MetaData, MetaDataView, Parameter, Parameters, ParameterView, Timestamp,
};

verus! {

/// A collection: its uid, and the directory where it was last seen.
#[derive(Debug)]
pub struct Collection {
    pub uid: String,
    pub path: String,
}

/// A `Collection` as a value.
pub struct CollectionView {
    pub uid: Seq<char>,
    pub path: Seq<char>,
}

impl View for Collection {
    type V = CollectionView;

    open spec fn view(&self) -> CollectionView {
        CollectionView { uid: self.uid@, path: self.path@ }
    }
}

/// The cached state of one entry. `last_sync_time` is the wall-clock time at
/// which the row was last written, not the age of what it was decoded from.
#[derive(Debug)]
pub struct CacheRow {
    pub id: i64,
    pub collection_uid: String,
    pub name: String,
    pub created_at: Timestamp,
    pub description: String,
    pub status: String,
    pub submitted: bool,
    pub parameters: Parameters,
    pub last_sync_time: Option<Timestamp>,
}

/// A row as a value.
pub struct CacheRowView {
    pub id: i64,
    pub collection_uid: Seq<char>,
    pub name: Seq<char>,
    pub created_at: Timestamp,
    pub description: Seq<char>,
    pub status: Seq<char>,
    pub submitted: bool,
    pub parameters: Seq<ParameterView>,
    pub last_sync_time: Option<Timestamp>,
}

impl View for CacheRow {
    type V = CacheRowView;

    open spec fn view(&self) -> CacheRowView {
        CacheRowView {
            id: self.id,
            collection_uid: self.collection_uid@,
            name: self.name@,
            created_at: self.created_at,
            description: self.description@,
            status: self.status@,
            submitted: self.submitted,
            parameters: self.parameters@,
            last_sync_time: self.last_sync_time,
        }
    }
}

impl CacheRowView {
    /// What the row says of its entry: everything but the row's id and the
    /// time of its last write.
    pub open spec fn content(self) -> (Seq<char>, Seq<char>, MetaDataView, Seq<ParameterView>) {
        (
            self.collection_uid,
            self.name,
            MetaDataView {
                created_at: self.created_at,
                description: self.description,
                status: self.status,
                submitted: self.submitted,
            },
            self.parameters,
        )
    }
}

/// A row as it was read from a store, its parameters as a list of settings.
#[derive(Debug)]
pub struct StoredRow {
    pub id: i64,
    pub collection_uid: String,
    pub name: String,
    pub created_at: Timestamp,
    pub description: String,
    pub status: String,
    pub submitted: bool,
    pub parameters: Vec<Parameter>,
    pub last_sync_time: Option<Timestamp>,
}

impl View for StoredRow {
    type V = CacheRowView;

    open spec fn view(&self) -> CacheRowView {
        CacheRowView {
            id: self.id,
            collection_uid: self.collection_uid@,
            name: self.name@,
            created_at: self.created_at,
            description: self.description@,
            status: self.status@,
            submitted: self.submitted,
            parameters: settings_applied(self.parameters@.map_values(|p: Parameter| p@)),
            last_sync_time: self.last_sync_time,
        }
    }
}

/// What a store holds: its two tables, and the largest row id it has given out.
#[derive(Debug)]
pub struct Tables {
    pub collections: Vec<Collection>,
    pub simulations: Vec<StoredRow>,
    pub last_id: i64,
}

/// Why the cache could not do what was asked.
#[derive(Debug, PartialEq, Eq, Structural, Clone, Copy)]
pub enum StoreError {
    /// The tables that were read break the rules of the cache: a uid, an
    /// entry or a row id occurs twice, or a row id is out of range.
    Corrupt,
    /// No row id is left for a new row.
    Full,
}

/// No uid has two collections.
pub open spec fn unique_uids(collections: Seq<CollectionView>) -> bool {
    forall|i: int, j: int|
        0 <= i < j < collections.len() ==> collections[i].uid != collections[j].uid
}

/// The collections after `uid` was declared at `path`: an earlier collection
/// of that uid is gone, and the new one stands last.
pub open spec fn declared(
    collections: Seq<CollectionView>,
    uid: Seq<char>,
    path: Seq<char>,
) -> Seq<CollectionView> {
    let c = CollectionView { uid, path };
    match first_where(collections, |x: CollectionView| x.uid == uid) {
        Some(i) => collections.remove(i).push(c),
        None => collections.push(c),
    }
}

/// The collection is not the one of `uid`.
pub open spec fn other_than(uid: Seq<char>) -> spec_fn(CollectionView) -> bool {
    |x: CollectionView| x.uid != uid
}

/// The cache as a value: the collections in the order in which they were last
/// written, the rows in the order in which they were first written.
pub struct CacheView {
    pub collections: Seq<CollectionView>,
    pub simulations: Seq<CacheRowView>,
    pub last_id: i64,
}

impl CacheView {
    /// The rules of the cache: no uid has two collections, no entry has two
    /// rows, and the row ids are distinct, positive and at most `last_id`.
    pub open spec fn wf(self) -> bool {
        &&& unique_uids(self.collections)
        &&& forall|i: int, j: int|
            0 <= i < j < self.simulations.len() ==> !(self.simulations[i].collection_uid
                == self.simulations[j].collection_uid && self.simulations[i].name
                == self.simulations[j].name)
        &&& forall|i: int, j: int|
            0 <= i < j < self.simulations.len() ==> self.simulations[i].id
                != self.simulations[j].id
        &&& forall|i: int|
            0 <= i < self.simulations.len() ==> 0 < (#[trigger] self.simulations[i]).id
                <= self.last_id
        &&& 0 <= self.last_id
    }

    /// The cache that holds nothing.
    pub open spec fn empty() -> CacheView {
        CacheView { collections: Seq::empty(), simulations: Seq::empty(), last_id: 0 }
    }

    /// Where the collection `uid` stands.
    pub open spec fn collection_at(self, uid: Seq<char>) -> Option<int> {
        first_where(self.collections, |c: CollectionView| c.uid == uid)
    }

    /// Where the row of the entry `name` of the collection `uid` stands.
    pub open spec fn row_at(self, uid: Seq<char>, name: Seq<char>) -> Option<int> {
        first_where(self.simulations, |r: CacheRowView| r.collection_uid == uid && r.name == name)
    }

    /// The path at which the collection `uid` was last declared.
    pub open spec fn collection_path(self, uid: Seq<char>) -> Option<Seq<char>> {
        match self.collection_at(uid) {
            Some(i) => Some(self.collections[i].path),
            None => None,
        }
    }

    /// The uid of the first collection that was seen at `path`.
    pub open spec fn collection_uid(self, path: Seq<char>) -> Option<Seq<char>> {
        match first_where(self.collections, |c: CollectionView| c.path == path) {
            Some(i) => Some(self.collections[i].uid),
            None => None,
        }
    }

    /// When the entry was last written; `None` if it never was.
    pub open spec fn sync_time(self, uid: Seq<char>, name: Seq<char>) -> Option<Timestamp> {
        match self.row_at(uid, name) {
            Some(i) => self.simulations[i].last_sync_time,
            None => None,
        }
    }

    /// The cache after `uid` was declared at `path`: an earlier collection of
    /// that uid is gone, and the new one stands last.
    pub open spec fn with_collection(self, uid: Seq<char>, path: Seq<char>) -> CacheView {
        CacheView { collections: declared(self.collections, uid, path), ..self }
    }

    /// There is no row for the entry and no id left to give it one.
    pub open spec fn full_for(self, uid: Seq<char>, name: Seq<char>) -> bool {
        self.row_at(uid, name) is None && self.last_id == i64::MAX
    }

    /// The id of the entry's row once the entry is written.
    pub open spec fn id_for(self, uid: Seq<char>, name: Seq<char>) -> int {
        match self.row_at(uid, name) {
            Some(i) => self.simulations[i].id as int,
            None => self.last_id + 1,
        }
    }

    /// The cache after the entry was written at the time `now`: its row keeps
    /// its place and its id and takes the new content, or a new row with the
    /// next id is added at the end.
    pub open spec fn with_simulation(
        self,
        uid: Seq<char>,
        name: Seq<char>,
        meta: MetaDataView,
        parameters: Seq<ParameterView>,
        now: Timestamp,
    ) -> CacheView {
        let row = CacheRowView {
            id: self.id_for(uid, name) as i64,
            collection_uid: uid,
            name,
            created_at: meta.created_at,
            description: meta.description,
            status: meta.status,
            submitted: meta.submitted,
            parameters,
            last_sync_time: Some(now),
        };
        match self.row_at(uid, name) {
            Some(i) => CacheView { simulations: self.simulations.update(i, row), ..self },
            None => CacheView {
                simulations: self.simulations.push(row),
                last_id: (self.last_id + 1) as i64,
                ..self
            },
        }
    }
}

/// Declaring a collection keeps the uids unique, and the collection is then
/// found last.
pub proof fn lemma_declared_unique(collections: Seq<CollectionView>, uid: Seq<char>, path: Seq<char>)
    requires
        unique_uids(collections),
    ensures
        unique_uids(declared(collections, uid, path)),
        first_where(declared(collections, uid, path), |x: CollectionView| x.uid == uid) == Some(
            declared(collections, uid, path).len() - 1,
        ),
        declared(collections, uid, path).last() == (CollectionView { uid, path }),
{
    let p = |x: CollectionView| x.uid == uid;
    let c = collections;
    let d = declared(collections, uid, path);
    lemma_first_where(c, p);
    lemma_first_where(d, p);
    let last = d.len() - 1;
    assert(p(d[last]));
    match first_where(c, p) {
        Some(i) => {
            assert forall|j: int| 0 <= j < last implies !p(#[trigger] d[j]) by {
                if j < i {
                    assert(d[j] == c[j]);
                } else {
                    assert(d[j] == c[j + 1]);
                }
            }
            assert forall|a: int, b: int| 0 <= a < b < d.len() implies d[a].uid != d[b].uid by {
                let a0 = if a < i {
                    a
                } else {
                    a + 1
                };
                assert(d[a] == c[a0]);
                if b < last {
                    let b0 = if b < i {
                        b
                    } else {
                        b + 1
                    };
                    assert(d[b] == c[b0]);
                } else {
                    assert(!p(d[a]));
                }
            }
        },
        None => {
            assert forall|j: int| 0 <= j < last implies !p(#[trigger] d[j]) by {
                assert(d[j] == c[j]);
            }
            assert forall|a: int, b: int| 0 <= a < b < d.len() implies d[a].uid != d[b].uid by {
                assert(d[a] == c[a]);
                if b < last {
                    assert(d[b] == c[b]);
                } else {
                    assert(!p(d[a]));
                }
            }
        },
    }
}

/// Taking out the one collection of a uid is keeping all others.
proof fn lemma_remove_as_filter(collections: Seq<CollectionView>, uid: Seq<char>, i: int)
    requires
        unique_uids(collections),
        0 <= i < collections.len(),
        collections[i].uid == uid,
    ensures
        collections.remove(i) == collections.filter(other_than(uid)),
{
    let q = other_than(uid);
    let c = collections;
    let head = c.take(i);
    let one = seq![c[i]];
    let tail = c.skip(i + 1);
    assert(head.filter(q) == head) by {
        assert forall|j: int| 0 <= j < head.len() implies q(#[trigger] head[j]) by {
            assert(head[j] == c[j]);
        }
        lemma_filter_all(head, q);
    }
    assert(tail.filter(q) == tail) by {
        assert forall|j: int| 0 <= j < tail.len() implies q(#[trigger] tail[j]) by {
            assert(tail[j] == c[i + 1 + j]);
        }
        lemma_filter_all(tail, q);
    }
    assert(one.filter(q) == Seq::<CollectionView>::empty()) by {
        let none = Seq::<CollectionView>::empty();
        lemma_filter_all(none, q);
        lemma_filter_push(none, c[i], q);
        assert(none.push(c[i]) =~= one);
    }
    assert(c.filter(q) == head + tail) by {
        assert(c =~= (head + one) + tail);
        Seq::filter_distributes_over_add(head + one, tail, q);
        Seq::filter_distributes_over_add(head, one, q);
        assert(head + Seq::<CollectionView>::empty() =~= head);
    }
    assert(c.remove(i) =~= head + tail);
}

/// Declaring a collection takes out what has its uid and adds it at the end.
pub proof fn lemma_declared_as_filter(
    collections: Seq<CollectionView>,
    uid: Seq<char>,
    path: Seq<char>,
)
    requires
        unique_uids(collections),
    ensures
        declared(collections, uid, path) == collections.filter(other_than(uid)).push(
            CollectionView { uid, path },
        ),
{
    let p = |x: CollectionView| x.uid == uid;
    let q = other_than(uid);
    lemma_first_where(collections, p);
    match first_where(collections, p) {
        Some(i) => {
            lemma_remove_as_filter(collections, uid, i);
        },
        None => {
            assert forall|j: int| 0 <= j < collections.len() implies q(#[trigger] collections[j]) by {
                assert(!p(collections[j]));
            }
            lemma_filter_all(collections, q);
        },
    }
}

/// Declaring a collection twice in a row is declaring it the second time.
pub proof fn lemma_declared_again(
    collections: Seq<CollectionView>,
    uid: Seq<char>,
    first: Seq<char>,
    second: Seq<char>,
)
    requires
        unique_uids(collections),
    ensures
        declared(declared(collections, uid, first), uid, second) == declared(
            collections,
            uid,
            second,
        ),
{
    let q = other_than(uid);
    let once = declared(collections, uid, first);
    lemma_declared_unique(collections, uid, first);
    lemma_declared_as_filter(collections, uid, first);
    lemma_declared_as_filter(once, uid, second);
    lemma_declared_as_filter(collections, uid, second);
    lemma_filter_push(collections.filter(q), CollectionView { uid, path: first }, q);
    lemma_filter_twice(collections, q);
}

/// Whatever is declared before a collection is declared, it makes no
/// difference to declare that collection before it as well.
pub proof fn lemma_declared_between(
    collections: Seq<CollectionView>,
    e_uid: Seq<char>,
    e_path: Seq<char>,
    d_uid: Seq<char>,
    d_path: Seq<char>,
)
    requires
        unique_uids(collections),
    ensures
        declared(declared(collections, e_uid, e_path), d_uid, d_path) == declared(
            declared(declared(collections, d_uid, d_path), e_uid, e_path),
            d_uid,
            d_path,
        ),
{
    let z = collections;
    let with_d = declared(z, d_uid, d_path);
    lemma_declared_unique(z, d_uid, d_path);
    if e_uid == d_uid {
        lemma_declared_again(z, d_uid, e_path, d_path);
        lemma_declared_again(with_d, d_uid, e_path, d_path);
        lemma_declared_again(z, d_uid, d_path, d_path);
    } else {
        let qe = other_than(e_uid);
        let qd = other_than(d_uid);
        let ne = CollectionView { uid: e_uid, path: e_path };
        let nd = CollectionView { uid: d_uid, path: d_path };
        let with_e = declared(z, e_uid, e_path);
        let with_de = declared(with_d, e_uid, e_path);
        lemma_declared_unique(z, e_uid, e_path);
        lemma_declared_unique(with_d, e_uid, e_path);
        lemma_declared_as_filter(z, e_uid, e_path);
        lemma_declared_as_filter(with_e, d_uid, d_path);
        lemma_declared_as_filter(z, d_uid, d_path);
        lemma_declared_as_filter(with_d, e_uid, e_path);
        lemma_declared_as_filter(with_de, d_uid, d_path);
        lemma_filter_push(z.filter(qe), ne, qd);
        lemma_filter_push(z.filter(qd), nd, qe);
        let w = z.filter(qd).filter(qe);
        lemma_filter_push(w.push(nd), ne, qd);
        lemma_filter_push(w, nd, qd);
        lemma_filter_commutes(z.filter(qd), qe, qd);
        lemma_filter_twice(z, qd);
        lemma_filter_commutes(z, qd, qe);
    }
}

/// Declaring a collection keeps the rules of the cache, and the collection
/// is then found at the path given.
pub proof fn lemma_with_collection(c: CacheView, uid: Seq<char>, path: Seq<char>)
    requires
        c.wf(),
    ensures
        c.with_collection(uid, path).wf(),
        c.with_collection(uid, path).collection_path(uid) == Some(path),
        c.with_collection(uid, path).simulations == c.simulations,
        c.with_collection(uid, path).last_id == c.last_id,
{
    lemma_declared_unique(c.collections, uid, path);
}

/// Writing an entry keeps the rules of the cache wherever an id is left for
/// it. The entry is then found under its id, with the content and the time
/// that were written, and every other row is as it was.
pub proof fn lemma_with_simulation(
    c: CacheView,
    uid: Seq<char>,
    name: Seq<char>,
    meta: MetaDataView,
    parameters: Seq<ParameterView>,
    now: Timestamp,
)
    requires
        c.wf(),
        !c.full_for(uid, name),
    ensures
        ({
            let d = c.with_simulation(uid, name, meta, parameters, now);
            &&& d.wf()
            &&& d.collections == c.collections
            &&& d.row_at(uid, name) is Some
            &&& d.row_at(uid, name) == match c.row_at(uid, name) {
                Some(i) => Some(i),
                None => Some(c.simulations.len() as int),
            }
            &&& d.simulations.len() == match c.row_at(uid, name) {
                Some(_) => c.simulations.len(),
                None => c.simulations.len() + 1,
            }
            &&& d.simulations[d.row_at(uid, name)->0].content() == (uid, name, meta, parameters)
            &&& d.simulations[d.row_at(uid, name)->0].id == c.id_for(uid, name)
            &&& d.sync_time(uid, name) == Some(now)
            &&& forall|j: int|
                0 <= j < c.simulations.len() && Some(j) != c.row_at(uid, name)
                    ==> #[trigger] d.simulations[j] == c.simulations[j]
        }),
{
    let p = |r: CacheRowView| r.collection_uid == uid && r.name == name;
    let d = c.with_simulation(uid, name, meta, parameters, now);
    lemma_first_where(c.simulations, p);
    lemma_first_where(d.simulations, p);
    match c.row_at(uid, name) {
        Some(i) => {
            assert(p(d.simulations[i]));
            assert forall|j: int| 0 <= j < i implies !p(#[trigger] d.simulations[j]) by {
                assert(d.simulations[j] == c.simulations[j]);
            }
            assert forall|a: int, b: int| 0 <= a < b < d.simulations.len() implies !(
            d.simulations[a].collection_uid == d.simulations[b].collection_uid
                && d.simulations[a].name == d.simulations[b].name) by {
                assert(d.simulations[a].collection_uid == c.simulations[a].collection_uid);
                assert(d.simulations[b].collection_uid == c.simulations[b].collection_uid);
                assert(d.simulations[a].name == c.simulations[a].name);
                assert(d.simulations[b].name == c.simulations[b].name);
            }
            assert forall|a: int, b: int| 0 <= a < b < d.simulations.len() implies d.simulations[a].id
                != d.simulations[b].id by {
                assert(d.simulations[a].id == c.simulations[a].id);
                assert(d.simulations[b].id == c.simulations[b].id);
            }
            assert forall|a: int| 0 <= a < d.simulations.len() implies 0 < (
            #[trigger] d.simulations[a]).id <= d.last_id by {
                assert(d.simulations[a].id == c.simulations[a].id);
            }
        },
        None => {
            let last = c.simulations.len() as int;
            assert(p(d.simulations[last]));
            assert forall|j: int| 0 <= j < last implies !p(#[trigger] d.simulations[j]) by {
                assert(d.simulations[j] == c.simulations[j]);
            }
            assert forall|a: int, b: int| 0 <= a < b < d.simulations.len() implies !(
            d.simulations[a].collection_uid == d.simulations[b].collection_uid
                && d.simulations[a].name == d.simulations[b].name) by {
                assert(d.simulations[a] == c.simulations[a]);
                if b < last {
                    assert(d.simulations[b] == c.simulations[b]);
                } else {
                    assert(!p(d.simulations[a]));
                }
            }
            assert forall|a: int, b: int| 0 <= a < b < d.simulations.len() implies d.simulations[a].id
                != d.simulations[b].id by {
                assert(d.simulations[a] == c.simulations[a]);
                if b < last {
                    assert(d.simulations[b] == c.simulations[b]);
                }
            }
            assert forall|a: int| 0 <= a < d.simulations.len() implies 0 < (
            #[trigger] d.simulations[a]).id <= d.last_id by {
                if a < last {
                    assert(d.simulations[a] == c.simulations[a]);
                }
            }
        },
    }
}

/// Writing an entry leaves every other entry as it was: where its row
/// stands, what the row holds, and whether an id is missing for it.
pub proof fn lemma_with_simulation_elsewhere(
    c: CacheView,
    uid: Seq<char>,
    name: Seq<char>,
    meta: MetaDataView,
    parameters: Seq<ParameterView>,
    now: Timestamp,
    other_uid: Seq<char>,
    other_name: Seq<char>,
)
    requires
        c.wf(),
        !c.full_for(uid, name),
        !(other_uid == uid && other_name == name),
    ensures
        ({
            let d = c.with_simulation(uid, name, meta, parameters, now);
            &&& d.row_at(other_uid, other_name) == c.row_at(other_uid, other_name)
            &&& c.row_at(other_uid, other_name) matches Some(i) ==> 0 <= i < c.simulations.len()
                && d.simulations[i] == c.simulations[i]
            &&& d.sync_time(other_uid, other_name) == c.sync_time(other_uid, other_name)
            &&& c.full_for(other_uid, other_name) ==> d.full_for(other_uid, other_name)
        }),
{
    let p = |r: CacheRowView| r.collection_uid == uid && r.name == name;
    let q = |r: CacheRowView| r.collection_uid == other_uid && r.name == other_name;
    let d = c.with_simulation(uid, name, meta, parameters, now);
    lemma_first_where(c.simulations, p);
    lemma_first_where(c.simulations, q);
    lemma_first_where(d.simulations, q);
    lemma_with_simulation(c, uid, name, meta, parameters, now);
    let changed = d.row_at(uid, name)->0;
    assert(!q(d.simulations[changed]));
    assert forall|j: int| 0 <= j < c.simulations.len() implies (q(#[trigger] d.simulations[j])
        <==> q(c.simulations[j])) by {
        if j != changed {
            assert(d.simulations[j] == c.simulations[j]);
        } else {
            assert(p(c.simulations[j]));
        }
    }
    match c.row_at(other_uid, other_name) {
        Some(i) => {
            assert(q(d.simulations[i]));
            assert(d.simulations[i] == c.simulations[i]);
            match d.row_at(other_uid, other_name) {
                Some(k) => {
                    if k < i {
                        assert(q(d.simulations[k]));
                        assert(!q(c.simulations[k]));
                    }
                    if i < k {
                        assert(!q(d.simulations[i]));
                    }
                },
                None => {
                    assert(!q(d.simulations[i]));
                },
            }
        },
        None => {
            match d.row_at(other_uid, other_name) {
                Some(k) => {
                    assert(q(d.simulations[k]));
                    if k < c.simulations.len() {
                        assert(!q(c.simulations[k]));
                    }
                },
                None => {},
            }
        },
    }
}

/// The sync cache.
#[derive(Debug)]
pub struct Cache {
    collections: Vec<Collection>,
    simulations: Vec<CacheRow>,
    last_id: i64,
}

impl View for Cache {
    type V = CacheView;

    closed spec fn view(&self) -> CacheView {
        CacheView {
            collections: self.collections@.map_values(|c: Collection| c@),
            simulations: self.simulations@.map_values(|r: CacheRow| r@),
            last_id: self.last_id,
        }
    }
}

impl Cache {
    /// The rules of the cache hold. Every cache that the library makes is
    /// well formed, and its operations keep it so.
    pub open spec fn wf(&self) -> bool {
        self@.wf()
    }

    /// A cache with both tables empty.
    pub fn new() -> (r: Cache)
        ensures
            r@ == CacheView::empty(),
            r.wf(),
    {
        let r = Cache { collections: Vec::new(), simulations: Vec::new(), last_id: 0 };
        assert(r@.collections =~= Seq::empty());
        assert(r@.simulations =~= Seq::empty());
        r
    }

    /// The collections, in the order in which they were last written.
    pub fn collections(&self) -> (r: &Vec<Collection>)
        ensures
            r@.map_values(|c: Collection| c@) == self@.collections,
    {
        &self.collections
    }

    /// The rows, in the order in which they were first written.
    pub fn simulations(&self) -> (r: &Vec<CacheRow>)
        ensures
            r@.map_values(|r: CacheRow| r@) == self@.simulations,
    {
        &self.simulations
    }

    /// The largest row id given out so far.
    pub fn last_id(&self) -> (r: i64)
        ensures
            r == self@.last_id,
    {
        self.last_id
    }

    fn collection_index(&self, uid: &str) -> (r: Option<usize>)
        ensures
            match r {
                Some(i) => self@.collection_at(uid@) == Some(i as int) && i < self@.collections.len(),
                None => self@.collection_at(uid@) is None,
            },
    {
        let ghost p = |c: CollectionView| c.uid == uid@;
        let mut i: usize = 0;
        while i < self.collections.len()
            invariant
                i <= self.collections.len(),
                p == |c: CollectionView| c.uid == uid@,
                forall|j: int| 0 <= j < i ==> !p(#[trigger] self@.collections[j]),
            decreases self.collections.len() - i,
        {
            if self.collections[i].uid.as_str().eq(uid) {
                proof {
                    assert(p(self@.collections[i as int]));
                    lemma_first_where(self@.collections, p);
                }
                return Some(i);
            }
            i += 1;
        }
        proof {
            lemma_first_where(self@.collections, p);
        }
        None
    }

    fn row_index(&self, uid: &str, name: &str) -> (r: Option<usize>)
        ensures
            match r {
                Some(i) => self@.row_at(uid@, name@) == Some(i as int) && i < self@.simulations.len(),
                None => self@.row_at(uid@, name@) is None,
            },
    {
        let ghost p = |r: CacheRowView| r.collection_uid == uid@ && r.name == name@;
        let mut i: usize = 0;
        while i < self.simulations.len()
            invariant
                i <= self.simulations.len(),
                p == |r: CacheRowView| r.collection_uid == uid@ && r.name == name@,
                forall|j: int| 0 <= j < i ==> !p(#[trigger] self@.simulations[j]),
            decreases self.simulations.len() - i,
        {
            let row = &self.simulations[i];
            if row.collection_uid.as_str().eq(uid) && row.name.as_str().eq(name) {
                proof {
                    assert(p(self@.simulations[i as int]));
                    lemma_first_where(self@.simulations, p);
                }
                return Some(i);
            }
            i += 1;
        }
        proof {
            lemma_first_where(self@.simulations, p);
        }
        None
    }
}

/// The path at which the collection `uid` was last seen.
pub fn get_collection_path(cache: &Cache, uid: &str) -> (r: Option<String>)
    ensures
        opt_text(r) == cache@.collection_path(uid@),
{
    match cache.collection_index(uid) {
        Some(i) => Some(cache.collections[i].path.clone()),
        None => None,
    }
}

/// The uid of the first collection that was seen at `path`.
pub fn get_collection_uid(cache: &Cache, path: &str) -> (r: Option<String>)
    ensures
        opt_text(r) == cache@.collection_uid(path@),
{
    let ghost p = |c: CollectionView| c.path == path@;
    let mut i: usize = 0;
    while i < cache.collections.len()
        invariant
            i <= cache.collections.len(),
            p == |c: CollectionView| c.path == path@,
            forall|j: int| 0 <= j < i ==> !p(#[trigger] cache@.collections[j]),
        decreases cache.collections.len() - i,
    {
        if cache.collections[i].path.as_str().eq(path) {
            proof {
                assert(p(cache@.collections[i as int]));
                lemma_first_where(cache@.collections, p);
            }
            return Some(cache.collections[i].uid.clone());
        }
        i += 1;
    }
    proof {
        lemma_first_where(cache@.collections, p);
    }
    None
}

/// When the entry `name` of the collection `uid` was last written; `None` if
/// it never was.
pub fn get_sim_sync_time(cache: &Cache, collection_uid: &str, name: &str) -> (r: Option<Timestamp>)
    ensures
        r == cache@.sync_time(collection_uid@, name@),
{
    match cache.row_index(collection_uid, name) {
        Some(i) => cache.simulations[i].last_sync_time,
        None => None,
    }
}

/// Declares the collection `uid` at `path`, in place of what was known of
/// that uid.
pub fn upsert_collection(cache: &mut Cache, uid: &str, path: &str)
    requires
        old(cache).wf(),
    ensures
        final(cache)@ == old(cache)@.with_collection(uid@, path@),
        final(cache).wf(),
        final(cache)@.collection_path(uid@) == Some(path@),
        final(cache)@.simulations == old(cache)@.simulations,
{
    proof {
        lemma_with_collection(cache@, uid@, path@);
    }
    let found = cache.collection_index(uid);
    let c = Collection { uid: uid.to_owned(), path: path.to_owned() };
    match found {
        Some(i) => {
            cache.collections.remove(i);
            cache.collections.push(c);
            assert(cache@.collections =~= old(cache)@.collections.remove(i as int).push(c@));
        },
        None => {
            cache.collections.push(c);
            assert(cache@.collections =~= old(cache)@.collections.push(c@));
        },
    }
}

/// Writes the entry `name` of the collection `uid` at the time `now`: its row
/// takes the new content, or a new row is made for it. Returns the row's id.
/// Fails, and changes nothing, where the entry has no row and no id is left.
pub fn upsert_simulation_at(
    cache: &mut Cache,
    collection_uid: &str,
    name: &str,
    meta: &MetaData,
    parameters: &Parameters,
    now: Timestamp,
) -> (r: Result<i64, StoreError>)
    requires
        old(cache).wf(),
    ensures
        final(cache).wf(),
        match r {
            Ok(id) => !old(cache)@.full_for(collection_uid@, name@) && final(cache)@ == old(
                cache,
            )@.with_simulation(collection_uid@, name@, meta@, parameters@, now) && id == old(
                cache,
            )@.id_for(collection_uid@, name@) && final(cache)@.sync_time(collection_uid@, name@)
                == Some(now),
            Err(e) => e == StoreError::Full && old(cache)@.full_for(collection_uid@, name@)
                && final(cache)@ == old(cache)@,
        },
{
    let found = cache.row_index(collection_uid, name);
    if found.is_none() && cache.last_id == i64::MAX {
        return Err(StoreError::Full);
    }
    proof {
        lemma_with_simulation(cache@, collection_uid@, name@, meta@, parameters@, now);
    }
    let id = match found {
        Some(i) => cache.simulations[i].id,
        None => cache.last_id + 1,
    };
    let row = CacheRow {
        id,
        collection_uid: collection_uid.to_owned(),
        name: name.to_owned(),
        created_at: meta.created_at,
        description: meta.description.clone(),
        status: meta.status.clone(),
        submitted: meta.submitted,
        parameters: parameters.duplicate(),
        last_sync_time: Some(now),
    };
    match found {
        Some(i) => {
            cache.simulations.set(i, row);
            assert(cache@.simulations =~= old(cache)@.simulations.update(i as int, row@));
        },
        None => {
            cache.simulations.push(row);
            cache.last_id = id;
            assert(cache@.simulations =~= old(cache)@.simulations.push(row@));
        },
    }
    Ok(id)
}

/// The time at which the entry's row was last written; the epoch where the
/// entry has no row or its row carries no time.
pub open spec fn written_at(c: CacheView, uid: Seq<char>, name: Seq<char>) -> Timestamp {
    match c.sync_time(uid, name) {
        Some(t) => t,
        None => Timestamp::spec_epoch(),
    }
}

/// Writes the entry `name` of the collection `uid` at the wall-clock time of
/// the call, as `upsert_simulation_at` does at a time given.
pub fn upsert_simulation(
    cache: &mut Cache,
    collection_uid: &str,
    name: &str,
    meta: &MetaData,
    parameters: &Parameters,
) -> (r: Result<i64, StoreError>)
    requires
        old(cache).wf(),
    ensures
        final(cache).wf(),
        match r {
            Ok(id) => !old(cache)@.full_for(collection_uid@, name@) && final(cache)@ == old(
                cache,
            )@.with_simulation(
                collection_uid@,
                name@,
                meta@,
                parameters@,
                written_at(final(cache)@, collection_uid@, name@),
            ) && id == old(cache)@.id_for(collection_uid@, name@),
            Err(e) => e == StoreError::Full && old(cache)@.full_for(collection_uid@, name@)
                && final(cache)@ == old(cache)@,
        },
{
    let now = Timestamp::now();
    proof {
        if !cache@.full_for(collection_uid@, name@) {
            lemma_with_simulation(cache@, collection_uid@, name@, meta@, parameters@, now);
        }
    }
    upsert_simulation_at(cache, collection_uid, name, meta, parameters, now)
}

impl View for Tables {
    type V = CacheView;

    open spec fn view(&self) -> CacheView {
        CacheView {
            collections: self.collections@.map_values(|c: Collection| c@),
            simulations: self.simulations@.map_values(|r: StoredRow| r@),
            last_id: self.last_id,
        }
    }
}

/// What a store amounts to: its tables, or two empty tables where it was
/// not there yet.
pub open spec fn stored_view(stored: Option<Tables>) -> CacheView {
    match stored {
        Some(t) => t@,
        None => CacheView::empty(),
    }
}

/// Whether the tables keep the rules of the cache.
pub fn check_tables(tables: &Tables) -> (r: bool)
    ensures
        r == tables@.wf(),
{
    if tables.last_id < 0 {
        return false;
    }
    let ghost v = tables@;
    let mut j: usize = 0;
    while j < tables.collections.len()
        invariant
            j <= tables.collections.len(),
            v == tables@,
            forall|a: int, b: int| 0 <= a < b < j ==> v.collections[a].uid != v.collections[b].uid,
        decreases tables.collections.len() - j,
    {
        let mut i: usize = 0;
        while i < j
            invariant
                i <= j < tables.collections.len(),
                v == tables@,
                forall|a: int| 0 <= a < i ==> v.collections[a].uid != v.collections[j as int].uid,
            decreases j - i,
        {
            if tables.collections[i].uid.as_str().eq(tables.collections[j].uid.as_str()) {
                assert(v.collections[i as int].uid == v.collections[j as int].uid);
                return false;
            }
            i += 1;
        }
        j += 1;
    }
    let mut j: usize = 0;
    while j < tables.simulations.len()
        invariant
            j <= tables.simulations.len(),
            v == tables@,
            forall|a: int, b: int|
                0 <= a < b < j ==> !(v.simulations[a].collection_uid == v.simulations[b].collection_uid
                    && v.simulations[a].name == v.simulations[b].name),
            forall|a: int, b: int| 0 <= a < b < j ==> v.simulations[a].id != v.simulations[b].id,
            forall|a: int| 0 <= a < j ==> 0 < (#[trigger] v.simulations[a]).id <= v.last_id,
        decreases tables.simulations.len() - j,
    {
        let row = &tables.simulations[j];
        assert(row@ == v.simulations[j as int]);
        if row.id <= 0 || row.id > tables.last_id {
            return false;
        }
        let mut i: usize = 0;
        while i < j
            invariant
                i <= j < tables.simulations.len(),
                v == tables@,
                row@ == v.simulations[j as int],
                forall|a: int|
                    0 <= a < i ==> !(v.simulations[a].collection_uid == row@.collection_uid
                        && v.simulations[a].name == row@.name),
                forall|a: int| 0 <= a < i ==> v.simulations[a].id != row@.id,
            decreases j - i,
        {
            let other = &tables.simulations[i];
            assert(other@ == v.simulations[i as int]);
            if other.id == row.id {
                return false;
            }
            if other.collection_uid.as_str().eq(row.collection_uid.as_str()) && other.name.as_str().eq(
                row.name.as_str(),
            ) {
                return false;
            }
            i += 1;
        }
        j += 1;
    }
    true
}

/// Opens the cache on what a store holds, and on two empty tables where the
/// store was not there yet. Tables that break the rules of the cache are
/// refused.
pub fn open_or_init(stored: Option<Tables>) -> (r: Result<Cache, StoreError>)
    ensures
        match r {
            Ok(cache) => stored_view(stored).wf() && cache@ == stored_view(stored) && cache.wf(),
            Err(e) => e == StoreError::Corrupt && !stored_view(stored).wf(),
        },
{
    let tables = match stored {
        Some(t) => t,
        None => {
            return Ok(Cache::new());
        },
    };
    if !check_tables(&tables) {
        return Err(StoreError::Corrupt);
    }
    let mut simulations: Vec<CacheRow> = Vec::new();
    let mut i: usize = 0;
    while i < tables.simulations.len()
        invariant
            i <= tables.simulations.len(),
            simulations@.len() == i,
            forall|j: int| 0 <= j < i ==> simulations@[j]@ == tables.simulations@[j]@,
        decreases tables.simulations.len() - i,
    {
        let row = &tables.simulations[i];
        simulations.push(
            CacheRow {
                id: row.id,
                collection_uid: row.collection_uid.clone(),
                name: row.name.clone(),
                created_at: row.created_at,
                description: row.description.clone(),
                status: row.status.clone(),
                submitted: row.submitted,
                parameters: Parameters::from_list(&row.parameters),
                last_sync_time: row.last_sync_time,
            },
        );
        i += 1;
    }
    let cache = Cache { collections: tables.collections, simulations, last_id: tables.last_id };
    assert(cache@.simulations =~= tables@.simulations);
    Ok(cache)
}

} // verus!
