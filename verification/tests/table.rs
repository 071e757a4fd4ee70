use simdex::api::{migrate, EntryScan};
use simdex::db::{upsert_simulation_at, Cache};
use simdex::discovery::DiscoveryError;
use simdex::display::{collection_rows, display, flatten_hashmap_field, sorted_names, Cell};
use simdex::entry::{RawAttr, RawEntry, RawParameter};
use simdex::text::{chars_of, is_text_before};
use simdex::types::{MetaData, ParamValue, Parameters, Timestamp};
use std::collections::BTreeSet;

fn meta(status: &str) -> MetaData {
    MetaData {
        created_at: Timestamp::new(1704067200, 0),
        description: "d".to_string(),
        status: status.to_string(),
        submitted: false,
    }
}

fn params(list: &[(&str, i64)]) -> Parameters {
    let mut p = Parameters::new();
    for (name, value) in list {
        p.insert(name.to_string(), ParamValue::Int(*value));
    }
    p
}

fn filled() -> Cache {
    let mut c = Cache::new();
    let now = Timestamp::new(9, 0);
    upsert_simulation_at(&mut c, "A", "run1", &meta("done"), &params(&[("steps", 100), ("alpha", 1)]), now).unwrap();
    upsert_simulation_at(&mut c, "B", "other", &meta("done"), &params(&[("zeta", 5)]), now).unwrap();
    upsert_simulation_at(&mut c, "A", "run2", &meta("failed"), &params(&[("beta", 2), ("steps", 200)]), now).unwrap();
    c
}

#[test]
fn order_of_strings_is_that_of_the_standard_library() {
    let words = ["", "a", "A", "ab", "abc", "b", "steps", "step", "ü", "u", "zeta", "é", "e\u{301}", "\u{10000}", "\u{ffff}", "~"];
    for a in words {
        for b in words {
            assert_eq!(is_text_before(a, b), a < b, "{:?} {:?}", a, b);
        }
    }
}

#[test]
fn characters_are_taken_one_by_one() {
    assert_eq!(chars_of("aü\u{10000}"), vec!['a', 'ü', '\u{10000}']);
    assert!(chars_of("").is_empty());
}

#[test]
fn names_are_sorted_and_unique() {
    let p = params(&[("steps", 1), ("alpha", 2), ("ü", 3), ("Zeta", 4), ("beta", 5), ("alpha2", 6)]);
    let sorted: Vec<String> = ["steps", "alpha", "ü", "Zeta", "beta", "alpha2"]
        .iter()
        .map(|s| s.to_string())
        .collect::<BTreeSet<String>>()
        .into_iter()
        .collect();
    assert_eq!(sorted_names(&p), sorted);
    assert!(sorted_names(&Parameters::new()).is_empty());
}

#[test]
fn columns_hold_the_value_of_each_entry_or_nothing() {
    let c = filled();
    let (keys, columns) = flatten_hashmap_field(&c, "A");
    assert_eq!(keys, vec!["alpha".to_string(), "beta".to_string(), "steps".to_string()]);
    assert_eq!(columns.len(), 3);
    assert!(matches!(columns[0][0], Some(ParamValue::Int(1))));
    assert!(columns[0][1].is_none());
    assert!(columns[1][0].is_none());
    assert!(matches!(columns[1][1], Some(ParamValue::Int(2))));
    assert!(matches!(columns[2][0], Some(ParamValue::Int(100))));
    assert!(matches!(columns[2][1], Some(ParamValue::Int(200))));
    let (keys, columns) = flatten_hashmap_field(&c, "none");
    assert!(keys.is_empty() && columns.is_empty());
}

#[test]
fn rows_of_a_collection_come_in_the_order_of_the_cache() {
    let c = filled();
    let rows = collection_rows(&c, "A");
    assert_eq!(rows.len(), 2);
    assert_eq!((rows[0].id, rows[0].name.as_str()), (1, "run1"));
    assert_eq!((rows[1].id, rows[1].name.as_str()), (3, "run2"));
    assert!(collection_rows(&c, "C").is_empty());
}

#[test]
fn table_has_fixed_columns_and_one_for_each_parameter() {
    let t = display(&filled(), "A");
    assert_eq!(t.header, vec!["id", "status", "submitted", "created_at", "name", "alpha", "beta", "steps"]);
    assert_eq!(t.records.len(), 2);
    let r = &t.records[1];
    assert_eq!(r.len(), 8);
    assert!(matches!(r[0], Cell::Id(3)));
    assert!(matches!(&r[1], Cell::Text(s) if s == "failed"));
    assert!(matches!(r[2], Cell::Flag(false)));
    assert!(matches!(r[3], Cell::Time(t) if t == Timestamp::new(1704067200, 0)));
    assert!(matches!(&r[4], Cell::Text(s) if s == "run2"));
    assert!(matches!(r[5], Cell::Empty));
    assert!(matches!(r[6], Cell::Value(ParamValue::Int(2))));
    assert!(matches!(r[7], Cell::Value(ParamValue::Int(200))));
    assert!(matches!(t.records[0][5], Cell::Value(ParamValue::Int(1))));
}

#[test]
fn table_of_an_unknown_collection_has_only_its_header() {
    let t = display(&filled(), "C");
    assert_eq!(t.header.len(), 5);
    assert!(t.records.is_empty());
}

#[test]
fn migration_writes_what_each_readable_entry_decodes_to() {
    let good = RawEntry {
        created_at: Some(r#"{"__type__":"datetime","__value__":"2024-01-01T00:00:00"}"#.to_string()),
        description: Some("first run".to_string()),
        status: Some("done".to_string()),
        submitted: None,
        parameters: Some(vec![RawParameter {
            name: "dt".to_string(),
            attr: Some(RawAttr { int: None, float: Some(0.25f64.to_bits()), text: None }),
        }]),
    };
    let bad = RawEntry { created_at: None, description: None, status: None, submitted: None, parameters: None };
    let entries = vec![
        EntryScan { name: "gone".to_string(), mtime: None, raw: None },
        EntryScan { name: "run1".to_string(), mtime: None, raw: Some(good) },
        EntryScan { name: "bad".to_string(), mtime: Some(Timestamp::epoch()), raw: Some(bad) },
    ];
    let written = migrate(&entries);
    assert_eq!(written.len(), 1);
    assert_eq!(written[0].name, "run1");
    assert_eq!(written[0].meta.description, "first run");
    assert_eq!(written[0].meta.created_at, Timestamp::new(1704067200, 0));
    assert!(matches!(written[0].parameters.get("dt"), Some(ParamValue::Float(bits)) if f64::from_bits(*bits) == 0.25));
}

#[test]
fn errors_say_what_went_wrong_where() {
    assert_eq!(DiscoveryError::NotADirectory.message("/x"), "Path '/x' is not a directory");
    assert_eq!(DiscoveryError::Unreadable.message("/x"), "Failed to read directory '/x'");
    assert_eq!(
        DiscoveryError::NoMarker.message("/x"),
        "No collection file found in '/x'. Expected a file starting with '.bamboost-collection-'"
    );
    assert_eq!(DiscoveryError::NotFound.message("ABC"), "Collection with UID 'ABC' not found");
    assert_eq!(
        DiscoveryError::AlreadyExists.message("/x"),
        "Path '/x' already exists and is not a directory"
    );
    assert_eq!(
        DiscoveryError::DirectoryNotEmpty.message("/x"),
        "Directory '/x' already exists and is not empty"
    );
}
