//! The cached entries of a collection laid out as a table: one line for each
//! entry, one column for each parameter name that an entry of the collection
//! uses.

use vstd::prelude::*;
use crate::api::{ls_params, parameter_space};
use crate::db::{Cache, CacheRow, CacheRowView};
use crate::search::{lemma_selected_none, lemma_selected_step, selected};
use crate::text::{
    is_text_before, lemma_text_before_irreflexive, lemma_text_before_total,
    lemma_text_before_transitive, text_before,
};
use crate::types::{value_of, ParamValue, ParamValueView, Parameters, ParameterView, Timestamp};

verus! {

/// Strings as their characters.
pub open spec fn texts(v: Seq<String>) -> Seq<Seq<char>> {
    v.map_values(|s: String| s@)
}

/// Each string stands before the next in the order of strings; so none
/// occurs twice.
pub open spec fn strictly_sorted(s: Seq<Seq<char>>) -> bool {
    forall|i: int, j: int| 0 <= i < j < s.len() ==> text_before(s[i], s[j])
}

/// No string occurs twice in a strictly sorted sequence.
pub proof fn lemma_strictly_sorted_has_no_repeats(s: Seq<Seq<char>>)
    requires
        strictly_sorted(s),
    ensures
        forall|i: int, j: int| 0 <= i < j < s.len() ==> s[i] != s[j],
{
    assert forall|i: int, j: int| 0 <= i < j < s.len() implies s[i] != s[j] by {
        lemma_text_before_irreflexive(s[i]);
    }
}

/// Where `name` belongs among the sorted `keys`: behind all that stand before
/// it.
fn insertion_point(keys: &Vec<String>, name: &str) -> (i: usize)
    ensures
        i <= keys@.len(),
        forall|j: int| 0 <= j < i ==> text_before(#[trigger] texts(keys@)[j], name@),
        i < keys@.len() ==> !text_before(texts(keys@)[i as int], name@),
{
    let mut i: usize = 0;
    while i < keys.len()
        invariant
            i <= keys@.len(),
            forall|j: int| 0 <= j < i ==> text_before(#[trigger] texts(keys@)[j], name@),
        decreases keys.len() - i,
    {
        if !is_text_before(keys[i].as_str(), name) {
            return i;
        }
        i += 1;
    }
    i
}

/// Puts `name` in its place among the sorted `keys`, unless it is there.
fn insert_sorted(keys: &mut Vec<String>, name: &str)
    requires
        strictly_sorted(texts(old(keys)@)),
    ensures
        strictly_sorted(texts(final(keys)@)),
        forall|n: Seq<char>|
            texts(final(keys)@).contains(n) <==> (texts(old(keys)@).contains(n) || n == name@),
{
    let ghost before = texts(keys@);
    let i = insertion_point(keys, name);
    if i < keys.len() && keys[i].as_str().eq(name) {
        assert(before[i as int] == name@);
        return;
    }
    proof {
        assert forall|j: int| i <= j < before.len() implies text_before(name@, #[trigger] before[j]) by {
            lemma_text_before_total(name@, before[i as int]);
            if j > i {
                lemma_text_before_transitive(name@, before[i as int], before[j]);
            }
        }
    }
    keys.insert(i, name.to_owned());
    let ghost after = texts(keys@);
    proof {
        assert(after =~= before.insert(i as int, name@));
        assert forall|a: int, b: int| 0 <= a < b < after.len() implies text_before(after[a], after[b]) by {
            if b < i {
                assert(after[a] == before[a] && after[b] == before[b]);
            } else if b == i {
                assert(after[a] == before[a]);
            } else if a < i {
                assert(after[a] == before[a] && after[b] == before[b - 1]);
                lemma_text_before_transitive(before[a], name@, before[b - 1]);
            } else if a == i {
                assert(after[b] == before[b - 1]);
            } else {
                assert(after[a] == before[a - 1] && after[b] == before[b - 1]);
            }
        }
        assert forall|n: Seq<char>| after.contains(n) <==> (before.contains(n) || n == name@) by {
            if after.contains(n) {
                let k = choose|k: int| 0 <= k < after.len() && after[k] == n;
                if k < i {
                    assert(before[k] == n);
                } else if k > i {
                    assert(before[k - 1] == n);
                }
            }
            if before.contains(n) {
                let k = choose|k: int| 0 <= k < before.len() && before[k] == n;
                if k < i {
                    assert(after[k] == n);
                } else {
                    assert(after[k + 1] == n);
                }
            }
            if n == name@ {
                assert(after[i as int] == n);
            }
        }
    }
}

/// Some parameter of `parameters` is called `n`.
pub open spec fn names(parameters: Seq<ParameterView>, n: Seq<char>) -> bool {
    exists|k: int| 0 <= k < parameters.len() && (#[trigger] parameters[k]).name == n
}

/// The names of the parameters, in the order of strings.
pub fn sorted_names(parameters: &Parameters) -> (keys: Vec<String>)
    ensures
        strictly_sorted(texts(keys@)),
        forall|n: Seq<char>| texts(keys@).contains(n) <==> names(parameters@, n),
{
    let mut keys: Vec<String> = Vec::new();
    let mut j: usize = 0;
    while j < parameters.len()
        invariant
            j <= parameters@.len(),
            strictly_sorted(texts(keys@)),
            forall|n: Seq<char>|
                texts(keys@).contains(n) <==> names(parameters@.take(j as int), n),
        decreases parameters@.len() - j,
    {
        let ghost before = texts(keys@);
        let p = parameters.at(j);
        insert_sorted(&mut keys, p.name.as_str());
        proof {
            let head = parameters@.take(j as int);
            let upto = parameters@.take(j + 1);
            assert forall|n: Seq<char>| texts(keys@).contains(n) <==> names(upto, n) by {
                if names(upto, n) {
                    let k = choose|k: int| 0 <= k < upto.len() && (#[trigger] upto[k]).name == n;
                    if k < j {
                        assert(head[k].name == n);
                    }
                }
                if names(head, n) {
                    let k = choose|k: int| 0 <= k < head.len() && (#[trigger] head[k]).name == n;
                    assert(upto[k].name == n);
                }
                if n == p@.name {
                    assert(upto[j as int].name == n);
                }
            }
        }
        j += 1;
    }
    assert(parameters@.take(j as int) =~= parameters@);
    keys
}

/// The rows of the collection `uid`, in their order.
pub open spec fn rows_of(rows: Seq<CacheRowView>, uid: Seq<char>) -> Seq<CacheRowView> {
    selected(rows, |r: CacheRowView| r.collection_uid == uid, |r: CacheRowView| r)
}

/// The rows of the collection `uid`.
pub fn collection_rows<'a>(cache: &'a Cache, uid: &str) -> (r: Vec<&'a CacheRow>)
    ensures
        r@.map_values(|row: &CacheRow| row@) == rows_of(cache@.simulations, uid@),
{
    let all = cache.simulations();
    let ghost views = cache@.simulations;
    let ghost p = |r: CacheRowView| r.collection_uid == uid@;
    let ghost f = |r: CacheRowView| r;
    let mut r: Vec<&CacheRow> = Vec::new();
    let mut i: usize = 0;
    proof {
        lemma_selected_none(views, p, f);
        assert(r@.map_values(|row: &CacheRow| row@) =~= selected(views.take(0), p, f));
    }
    while i < all.len()
        invariant
            i <= all.len(),
            all@.map_values(|r: CacheRow| r@) == views,
            p == |r: CacheRowView| r.collection_uid == uid@,
            f == |r: CacheRowView| r,
            r@.map_values(|row: &CacheRow| row@) == selected(views.take(i as int), p, f),
        decreases all.len() - i,
    {
        proof {
            lemma_selected_step(views, p, f, i as int);
            assert(all@[i as int]@ == views[i as int]);
        }
        if all[i].collection_uid.as_str().eq(uid) {
            let ghost before = r@.map_values(|row: &CacheRow| row@);
            r.push(&all[i]);
            assert(r@.map_values(|row: &CacheRow| row@) =~= before.push(views[i as int]));
        }
        i += 1;
    }
    assert(views.take(i as int) =~= views);
    r
}

/// An optional value as a value.
pub open spec fn opt_value(v: Option<ParamValue>) -> Option<ParamValueView> {
    match v {
        Some(x) => Some(x@),
        None => None,
    }
}

/// The parameters of a collection's entries, one column for each name: the
/// names that an entry of the collection uses, in the order of strings, and
/// for each name the value that each entry gives it, if any.
pub fn flatten_hashmap_field(cache: &Cache, uid: &str) -> (r: (
    Vec<String>,
    Vec<Vec<Option<ParamValue>>>,
))
    ensures
        strictly_sorted(texts(r.0@)),
        forall|n: Seq<char>|
            texts(r.0@).contains(n) <==> names(parameter_space(cache@.simulations, uid@), n),
        r.1@.len() == r.0@.len(),
        forall|k: int|
            0 <= k < r.1@.len() ==> (#[trigger] r.1@[k])@.len() == rows_of(
                cache@.simulations,
                uid@,
            ).len(),
        forall|k: int, i: int|
            0 <= k < r.1@.len() && 0 <= i < rows_of(cache@.simulations, uid@).len() ==> opt_value(
                #[trigger] r.1@[k]@[i],
            ) == value_of(rows_of(cache@.simulations, uid@)[i].parameters, texts(r.0@)[k]),
{
    let space = ls_params(cache, uid);
    let keys = sorted_names(&space);
    let rows = collection_rows(cache, uid);
    let ghost views = rows_of(cache@.simulations, uid@);
    let ghost names_of = texts(keys@);
    let mut columns: Vec<Vec<Option<ParamValue>>> = Vec::new();
    let mut k: usize = 0;
    while k < keys.len()
        invariant
            k <= keys.len(),
            names_of == texts(keys@),
            rows@.map_values(|row: &CacheRow| row@) == views,
            columns@.len() == k,
            forall|c: int| 0 <= c < k ==> (#[trigger] columns@[c])@.len() == views.len(),
            forall|c: int, i: int|
                0 <= c < k && 0 <= i < views.len() ==> opt_value(#[trigger] columns@[c]@[i])
                    == value_of(views[i].parameters, names_of[c]),
        decreases keys.len() - k,
    {
        let mut column: Vec<Option<ParamValue>> = Vec::new();
        let mut i: usize = 0;
        while i < rows.len()
            invariant
                i <= rows.len(),
                k < keys.len(),
                names_of == texts(keys@),
                rows@.map_values(|row: &CacheRow| row@) == views,
                column@.len() == i,
                forall|j: int|
                    0 <= j < i ==> opt_value(#[trigger] column@[j]) == value_of(
                        views[j].parameters,
                        names_of[k as int],
                    ),
            decreases rows.len() - i,
        {
            assert(rows@[i as int]@ == views[i as int]);
            let value = match rows[i].parameters.get(keys[k].as_str()) {
                Some(v) => Some(v.duplicate()),
                None => None,
            };
            column.push(value);
            i += 1;
        }
        columns.push(column);
        k += 1;
    }
    (keys, columns)
}

/// One cell of the table.
#[derive(Debug)]
pub enum Cell {
    Id(i64),
    Text(String),
    Flag(bool),
    Time(Timestamp),
    Value(ParamValue),
    /// The entry does not use the parameter of the column.
    Empty,
}

/// A `Cell` as a value.
pub enum CellView {
    Id(i64),
    Text(Seq<char>),
    Flag(bool),
    Time(Timestamp),
    Value(ParamValueView),
    Empty,
}

impl View for Cell {
    type V = CellView;

    open spec fn view(&self) -> CellView {
        match self {
            Cell::Id(i) => CellView::Id(*i),
            Cell::Text(s) => CellView::Text(s@),
            Cell::Flag(b) => CellView::Flag(*b),
            Cell::Time(t) => CellView::Time(*t),
            Cell::Value(v) => CellView::Value(v@),
            Cell::Empty => CellView::Empty,
        }
    }
}

/// The table of a collection: the names of the columns, and one record for
/// each entry.
#[derive(Debug)]
pub struct Table {
    pub header: Vec<String>,
    pub records: Vec<Vec<Cell>>,
}

/// The names of the columns that every table begins with.
pub open spec fn fixed_header() -> Seq<Seq<char>> {
    seq!["id"@, "status"@, "submitted"@, "created_at"@, "name"@]
}

/// The cell of the row `r` in the column `c` of a table with the header
/// `header`: the row's own fields in the fixed columns, and behind them the
/// value that the row gives to the parameter that the column is named after.
pub open spec fn cell_at(r: CacheRowView, header: Seq<Seq<char>>, c: int) -> CellView {
    if c == 0 {
        CellView::Id(r.id)
    } else if c == 1 {
        CellView::Text(r.status)
    } else if c == 2 {
        CellView::Flag(r.submitted)
    } else if c == 3 {
        CellView::Time(r.created_at)
    } else if c == 4 {
        CellView::Text(r.name)
    } else {
        match value_of(r.parameters, header[c]) {
            Some(v) => CellView::Value(v),
            None => CellView::Empty,
        }
    }
}

/// The cached entries of the collection `uid` as a table. Behind the fixed
/// columns stands one column for each parameter name that an entry of the
/// collection uses, in the order of strings; each entry of the collection has
/// one record, in the order of the cache.
pub fn display(cache: &Cache, uid: &str) -> (t: Table)
    ensures
        texts(t.header@).take(5) == fixed_header(),
        strictly_sorted(texts(t.header@).skip(5)),
        forall|n: Seq<char>|
            texts(t.header@).skip(5).contains(n) <==> names(
                parameter_space(cache@.simulations, uid@),
                n,
            ),
        t.records@.len() == rows_of(cache@.simulations, uid@).len(),
        forall|i: int|
            0 <= i < t.records@.len() ==> (#[trigger] t.records@[i])@.len() == t.header@.len(),
        forall|i: int, c: int|
            0 <= i < t.records@.len() && 0 <= c < t.header@.len() ==> (#[trigger] t.records@[i]@[c])@
                == cell_at(rows_of(cache@.simulations, uid@)[i], texts(t.header@), c),
{
    let (keys, columns) = flatten_hashmap_field(cache, uid);
    let rows = collection_rows(cache, uid);
    let ghost views = rows_of(cache@.simulations, uid@);
    let ghost names_of = texts(keys@);
    let mut header: Vec<String> = Vec::new();
    header.push("id".to_owned());
    header.push("status".to_owned());
    header.push("submitted".to_owned());
    header.push("created_at".to_owned());
    header.push("name".to_owned());
    assert(texts(header@) =~= fixed_header());
    let mut k: usize = 0;
    while k < keys.len()
        invariant
            k <= keys.len(),
            names_of == texts(keys@),
            texts(header@) == fixed_header() + names_of.take(k as int),
        decreases keys.len() - k,
    {
        let ghost before = texts(header@);
        header.push(keys[k].clone());
        assert(texts(header@) =~= before.push(names_of[k as int]));
        assert(names_of.take(k + 1) =~= names_of.take(k as int).push(names_of[k as int]));
        assert(before.push(names_of[k as int]) =~= fixed_header() + names_of.take(k + 1));
        k += 1;
    }
    assert(names_of.take(k as int) =~= names_of);
    let ghost titles = texts(header@);
    assert(titles.take(5) =~= fixed_header());
    assert(titles.skip(5) =~= names_of);
    let mut records: Vec<Vec<Cell>> = Vec::new();
    let mut i: usize = 0;
    while i < rows.len()
        invariant
            i <= rows.len(),
            names_of == texts(keys@),
            titles == fixed_header() + names_of,
            rows@.map_values(|row: &CacheRow| row@) == views,
            columns@.len() == keys@.len(),
            forall|c: int| 0 <= c < columns@.len() ==> (#[trigger] columns@[c])@.len() == views.len(),
            forall|c: int, j: int|
                0 <= c < columns@.len() && 0 <= j < views.len() ==> opt_value(
                    #[trigger] columns@[c]@[j],
                ) == value_of(views[j].parameters, names_of[c]),
            records@.len() == i,
            forall|j: int| 0 <= j < i ==> (#[trigger] records@[j])@.len() == titles.len(),
            forall|j: int, c: int|
                0 <= j < i && 0 <= c < titles.len() ==> (#[trigger] records@[j]@[c])@ == cell_at(
                    views[j],
                    titles,
                    c,
                ),
        decreases rows.len() - i,
    {
        let row = rows[i];
        assert(row@ == views[i as int]);
        let mut record: Vec<Cell> = Vec::new();
        record.push(Cell::Id(row.id));
        record.push(Cell::Text(row.status.clone()));
        record.push(Cell::Flag(row.submitted));
        record.push(Cell::Time(row.created_at));
        record.push(Cell::Text(row.name.clone()));
        let mut c: usize = 0;
        while c < columns.len()
            invariant
                c <= columns.len(),
                i < rows.len(),
                row@ == views[i as int],
                names_of == texts(keys@),
                titles == fixed_header() + names_of,
                columns@.len() == keys@.len(),
                forall|d: int|
                    0 <= d < columns@.len() ==> (#[trigger] columns@[d])@.len() == views.len(),
                forall|d: int, j: int|
                    0 <= d < columns@.len() && 0 <= j < views.len() ==> opt_value(
                        #[trigger] columns@[d]@[j],
                    ) == value_of(views[j].parameters, names_of[d]),
                rows@.len() == views.len(),
                record@.len() == 5 + c,
                forall|d: int|
                    0 <= d < 5 + c ==> (#[trigger] record@[d])@ == cell_at(views[i as int], titles, d),
            decreases columns.len() - c,
        {
            assert(columns@[c as int]@.len() == views.len());
            assert(titles[5 + c] == names_of[c as int]);
            let cell = match &columns[c][i] {
                Some(v) => Cell::Value(v.duplicate()),
                None => Cell::Empty,
            };
            record.push(cell);
            c += 1;
        }
        records.push(record);
        i += 1;
    }
    Table { header, records }
}

} // verus!
