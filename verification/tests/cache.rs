use simdex::db::{
    check_tables, get_collection_path, get_collection_uid, get_sim_sync_time, open_or_init,
    upsert_collection, upsert_simulation, upsert_simulation_at, Cache, Collection, StoreError,
    StoredRow, Tables,
};
use simdex::types::{MetaData, ParamValue, Parameter, Parameters, Timestamp};

fn meta(description: &str) -> MetaData {
    MetaData {
        created_at: Timestamp::new(1704067200, 0),
        description: description.to_string(),
        status: "done".to_string(),
        submitted: true,
    }
}

fn steps(n: i64) -> Parameters {
    let mut p = Parameters::new();
    p.insert("steps".to_string(), ParamValue::Int(n));
    p
}

fn stored(id: i64, uid: &str, name: &str) -> StoredRow {
    StoredRow {
        id,
        collection_uid: uid.to_string(),
        name: name.to_string(),
        created_at: Timestamp::epoch(),
        description: String::new(),
        status: String::new(),
        submitted: false,
        parameters: vec![
            Parameter { name: "a".to_string(), value: ParamValue::Int(1) },
            Parameter { name: "a".to_string(), value: ParamValue::Int(2) },
        ],
        last_sync_time: Some(Timestamp::new(5, 0)),
    }
}

#[test]
fn new_cache_is_empty() {
    let c = Cache::new();
    assert!(c.collections().is_empty());
    assert!(c.simulations().is_empty());
    assert_eq!(c.last_id(), 0);
    assert_eq!(get_sim_sync_time(&c, "X", "run1"), None);
    assert_eq!(get_collection_path(&c, "X"), None);
}

#[test]
fn collection_is_replaced_by_uid_and_moves_last() {
    let mut c = Cache::new();
    upsert_collection(&mut c, "A", "/data/a");
    upsert_collection(&mut c, "B", "/data/b");
    upsert_collection(&mut c, "A", "/moved/a");
    let all = c.collections();
    assert_eq!(all.len(), 2);
    assert_eq!((all[0].uid.as_str(), all[0].path.as_str()), ("B", "/data/b"));
    assert_eq!((all[1].uid.as_str(), all[1].path.as_str()), ("A", "/moved/a"));
    assert_eq!(get_collection_path(&c, "A"), Some("/moved/a".to_string()));
    assert_eq!(get_collection_uid(&c, "/data/b"), Some("B".to_string()));
    assert_eq!(get_collection_uid(&c, "/data/a"), None);
}

#[test]
fn first_write_of_an_entry_makes_a_row_with_the_next_id() {
    let mut c = Cache::new();
    let now = Timestamp::new(100, 0);
    assert_eq!(upsert_simulation_at(&mut c, "A", "run1", &meta("one"), &steps(1), now), Ok(1));
    assert_eq!(upsert_simulation_at(&mut c, "A", "run2", &meta("two"), &steps(2), now), Ok(2));
    assert_eq!(upsert_simulation_at(&mut c, "B", "run1", &meta("three"), &steps(3), now), Ok(3));
    assert_eq!(c.simulations().len(), 3);
    assert_eq!(c.last_id(), 3);
    assert_eq!(get_sim_sync_time(&c, "A", "run2"), Some(now));
    assert_eq!(get_sim_sync_time(&c, "B", "run2"), None);
}

#[test]
fn repeated_write_updates_the_row_in_place() {
    let mut c = Cache::new();
    upsert_simulation_at(&mut c, "A", "run1", &meta("one"), &steps(1), Timestamp::new(100, 0)).unwrap();
    upsert_simulation_at(&mut c, "A", "run2", &meta("two"), &steps(2), Timestamp::new(100, 0)).unwrap();
    let id = upsert_simulation_at(&mut c, "A", "run1", &meta("again"), &steps(9), Timestamp::new(200, 0));
    assert_eq!(id, Ok(1));
    let rows = c.simulations();
    assert_eq!(rows.len(), 2);
    assert_eq!(rows[0].id, 1);
    assert_eq!(rows[0].name, "run1");
    assert_eq!(rows[0].description, "again");
    assert!(matches!(rows[0].parameters.get("steps"), Some(ParamValue::Int(9))));
    assert_eq!(rows[0].last_sync_time, Some(Timestamp::new(200, 0)));
    assert_eq!(rows[1].description, "two");
    assert_eq!(rows[1].last_sync_time, Some(Timestamp::new(100, 0)));
    assert_eq!(c.last_id(), 2);
}

#[test]
fn write_at_the_clock_records_the_time_of_the_write() {
    let mut c = Cache::new();
    let before = Timestamp::now();
    assert_eq!(upsert_simulation(&mut c, "A", "run1", &meta("one"), &steps(1)), Ok(1));
    let at = get_sim_sync_time(&c, "A", "run1").expect("written");
    assert!(!before.is_after(at));
    assert_ne!(at, meta("one").created_at);
}

#[test]
fn store_that_is_not_there_opens_empty() {
    let c = open_or_init(None).expect("opens");
    assert!(c.collections().is_empty());
    assert!(c.simulations().is_empty());
}

#[test]
fn stored_tables_open_as_they_are() {
    let tables = Tables {
        collections: vec![Collection { uid: "A".to_string(), path: "/a".to_string() }],
        simulations: vec![stored(3, "A", "run1"), stored(7, "A", "run2")],
        last_id: 9,
    };
    assert!(check_tables(&tables));
    let mut c = open_or_init(Some(tables)).expect("opens");
    assert_eq!(c.last_id(), 9);
    assert_eq!(c.simulations()[1].id, 7);
    assert_eq!(c.simulations()[0].parameters.len(), 1);
    assert!(matches!(c.simulations()[0].parameters.get("a"), Some(ParamValue::Int(2))));
    assert_eq!(get_sim_sync_time(&c, "A", "run2"), Some(Timestamp::new(5, 0)));
    assert_eq!(upsert_simulation_at(&mut c, "A", "run3", &meta("x"), &steps(1), Timestamp::epoch()), Ok(10));
}

#[test]
fn tables_that_break_the_rules_are_refused() {
    let twice = Tables {
        collections: vec![],
        simulations: vec![stored(1, "A", "run1"), stored(2, "A", "run1")],
        last_id: 2,
    };
    assert!(!check_tables(&twice));
    assert_eq!(open_or_init(Some(twice)).err(), Some(StoreError::Corrupt));
    let same_id = Tables {
        collections: vec![],
        simulations: vec![stored(1, "A", "run1"), stored(1, "A", "run2")],
        last_id: 2,
    };
    assert_eq!(open_or_init(Some(same_id)).err(), Some(StoreError::Corrupt));
    let beyond = Tables { collections: vec![], simulations: vec![stored(3, "A", "run1")], last_id: 2 };
    assert_eq!(open_or_init(Some(beyond)).err(), Some(StoreError::Corrupt));
    let zero = Tables { collections: vec![], simulations: vec![stored(0, "A", "run1")], last_id: 2 };
    assert_eq!(open_or_init(Some(zero)).err(), Some(StoreError::Corrupt));
    let uid_twice = Tables {
        collections: vec![
            Collection { uid: "A".to_string(), path: "/a".to_string() },
            Collection { uid: "A".to_string(), path: "/b".to_string() },
        ],
        simulations: vec![],
        last_id: 0,
    };
    assert_eq!(open_or_init(Some(uid_twice)).err(), Some(StoreError::Corrupt));
    let negative = Tables { collections: vec![], simulations: vec![], last_id: -1 };
    assert_eq!(open_or_init(Some(negative)).err(), Some(StoreError::Corrupt));
}

#[test]
fn no_id_left_fails_a_new_row_and_not_an_update() {
    let tables = Tables {
        collections: vec![],
        simulations: vec![stored(i64::MAX, "A", "run1")],
        last_id: i64::MAX,
    };
    let mut c = open_or_init(Some(tables)).expect("opens");
    let now = Timestamp::new(1, 1);
    assert_eq!(
        upsert_simulation_at(&mut c, "A", "run2", &meta("x"), &steps(1), now),
        Err(StoreError::Full)
    );
    assert_eq!(c.simulations().len(), 1);
    assert_eq!(upsert_simulation(&mut c, "A", "run2", &meta("x"), &steps(1)), Err(StoreError::Full));
    assert_eq!(upsert_simulation_at(&mut c, "A", "run1", &meta("x"), &steps(1), now), Ok(i64::MAX));
    assert_eq!(c.simulations()[0].description, "x");
}

#[test]
fn parameters_keep_each_name_once() {
    let mut p = Parameters::new();
    p.insert("a".to_string(), ParamValue::Int(1));
    p.insert("b".to_string(), ParamValue::Text("x".to_string()));
    p.insert("a".to_string(), ParamValue::Float(1.5f64.to_bits()));
    assert_eq!(p.len(), 2);
    assert_eq!(p.position("a"), Some(0));
    assert_eq!(p.position("c"), None);
    assert!(matches!(p.get("a"), Some(ParamValue::Float(_))));
    let q = p.duplicate();
    assert_eq!(q.len(), 2);
    assert_eq!(q.at(1).name, "b");
    let r = Parameters::from_list(&vec![
        Parameter { name: "z".to_string(), value: ParamValue::Int(1) },
        Parameter { name: "y".to_string(), value: ParamValue::Int(2) },
        Parameter { name: "z".to_string(), value: ParamValue::Int(3) },
    ]);
    assert_eq!(r.len(), 2);
    assert_eq!(r.at(0).name, "z");
    assert!(matches!(r.at(0).value, ParamValue::Int(3)));
}
