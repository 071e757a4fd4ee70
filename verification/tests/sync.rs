use simdex::api::{
    finish_entry, finish_entry_at, ls_collections, ls_params, needs_sync, plan_entry, scan,
    sync_collection, sync_entry, CollectionScan, EntryOutcome, EntryPlan, EntryScan,
};
use simdex::db::{get_sim_sync_time, open_or_init, Cache, StoreError, StoredRow, Tables};
use simdex::entry::{RawAttr, RawEntry, RawParameter};
use simdex::types::{ParamValue, Timestamp};

fn container(description: &str, steps: i64) -> RawEntry {
    RawEntry {
        created_at: Some(r#"{"__type__":"datetime","__value__":"2024-01-01T00:00:00"}"#.to_string()),
        description: Some(description.to_string()),
        status: Some("done".to_string()),
        submitted: Some(true),
        parameters: Some(vec![RawParameter {
            name: "steps".to_string(),
            attr: Some(RawAttr { int: Some(steps), float: None, text: None }),
        }]),
    }
}

fn entry(name: &str, mtime: i64, raw: Option<RawEntry>) -> EntryScan {
    EntryScan { name: name.to_string(), mtime: Some(Timestamp::new(mtime, 0)), raw }
}

fn root_with_run1(mtime: i64) -> Vec<CollectionScan> {
    vec![CollectionScan {
        path: "R".to_string(),
        uid: "ABC123".to_string(),
        entries: vec![entry("run1", mtime, Some(container("first run", 100)))],
    }]
}

#[test]
fn container_is_decoded_only_if_modified_strictly_after_the_last_write() {
    let t = Timestamp::new(100, 500);
    assert!(needs_sync(Timestamp::new(100, 501), Some(t)));
    assert!(needs_sync(Timestamp::new(101, 0), Some(t)));
    assert!(!needs_sync(t, Some(t)));
    assert!(!needs_sync(Timestamp::new(100, 499), Some(t)));
    assert!(!needs_sync(Timestamp::new(99, 999_999_999), Some(t)));
}

#[test]
fn entry_that_was_never_written_is_always_decoded() {
    assert!(needs_sync(Timestamp::new(i64::MIN, 0), None));
    assert!(needs_sync(Timestamp::epoch(), None));
}

#[test]
fn scan_of_one_collection_with_one_entry() {
    let (cache, report) =
        scan(Cache::new(), &root_with_run1(1_700_000_000), Timestamp::new(1_800_000_000, 0)).expect("runs");
    assert_eq!(ls_collections(&cache), vec![("ABC123".to_string(), "R".to_string())]);
    assert_eq!(report, vec![vec![EntryOutcome::Synced { id: 1 }]]);
    let rows = cache.simulations();
    assert_eq!(rows.len(), 1);
    assert_eq!(rows[0].collection_uid, "ABC123");
    assert_eq!(rows[0].name, "run1");
    assert_eq!(rows[0].status, "done");
    assert!(rows[0].submitted);
    assert_eq!(rows[0].description, "first run");
    assert_eq!(rows[0].created_at, Timestamp::new(1704067200, 0));
    assert_eq!(rows[0].parameters.len(), 1);
    assert!(matches!(rows[0].parameters.get("steps"), Some(ParamValue::Int(100))));
    assert_eq!(rows[0].last_sync_time, Some(Timestamp::new(1_800_000_000, 0)));
}

#[test]
fn touched_container_is_written_again_without_a_second_row() {
    let first = Timestamp::new(1_800_000_000, 0);
    let (cache, _) = scan(Cache::new(), &root_with_run1(1_700_000_000), first).expect("runs");
    let second = Timestamp::new(1_900_000_000, 0);
    let (cache, report) = scan(cache, &root_with_run1(1_850_000_000), second).expect("runs");
    assert_eq!(report, vec![vec![EntryOutcome::Synced { id: 1 }]]);
    let rows = cache.simulations();
    assert_eq!(rows.len(), 1);
    assert_eq!(rows[0].id, 1);
    assert_eq!(rows[0].description, "first run");
    assert_eq!(rows[0].status, "done");
    assert!(rows[0].submitted);
    assert!(matches!(rows[0].parameters.get("steps"), Some(ParamValue::Int(100))));
    assert_eq!(rows[0].last_sync_time, Some(second));
    assert_eq!(ls_collections(&cache).len(), 1);
}

#[test]
fn second_scan_without_changes_writes_nothing() {
    let first = Timestamp::new(1_800_000_000, 0);
    let found = root_with_run1(1_700_000_000);
    let (cache, _) = scan(Cache::new(), &found, first).expect("runs");
    let (cache, report) = scan(cache, &found, Timestamp::new(1_900_000_000, 0)).expect("runs");
    assert_eq!(report, vec![vec![EntryOutcome::Unchanged]]);
    let rows = cache.simulations();
    assert_eq!(rows.len(), 1);
    assert_eq!(rows[0].description, "first run");
    assert_eq!(rows[0].last_sync_time, Some(first));
}

#[test]
fn changed_container_updates_the_row() {
    let (cache, _) = scan(Cache::new(), &root_with_run1(10), Timestamp::new(20, 0)).expect("runs");
    let mut found = root_with_run1(21);
    found[0].entries[0].raw = Some(container("second thoughts", 250));
    let (cache, _) = scan(cache, &found, Timestamp::new(30, 0)).expect("runs");
    let rows = cache.simulations();
    assert_eq!(rows.len(), 1);
    assert_eq!(rows[0].description, "second thoughts");
    assert!(matches!(rows[0].parameters.get("steps"), Some(ParamValue::Int(250))));
}

#[test]
fn container_modified_at_the_time_of_the_last_write_is_left_alone() {
    let (cache, _) = scan(Cache::new(), &root_with_run1(10), Timestamp::new(20, 0)).expect("runs");
    let mut found = root_with_run1(20);
    found[0].entries[0].raw = Some(container("changed", 1));
    let (cache, report) = scan(cache, &found, Timestamp::new(30, 0)).expect("runs");
    assert_eq!(report[0][0], EntryOutcome::Unchanged);
    assert_eq!(cache.simulations()[0].description, "first run");
}

#[test]
fn unreadable_entry_does_not_stop_its_siblings_or_other_collections() {
    let mut broken = container("broken", 1);
    broken.status = None;
    let found = vec![
        CollectionScan {
            path: "/a".to_string(),
            uid: "A".to_string(),
            entries: vec![
                entry("gone", 5, None),
                entry("broken", 5, Some(broken)),
                EntryScan { name: "dark".to_string(), mtime: None, raw: Some(container("dark", 2)) },
                entry("fine", 5, Some(container("fine", 3))),
            ],
        },
        CollectionScan {
            path: "/b".to_string(),
            uid: "B".to_string(),
            entries: vec![entry("also fine", 5, Some(container("also fine", 4)))],
        },
    ];
    let (cache, report) = scan(Cache::new(), &found, Timestamp::new(9, 0)).expect("runs");
    assert_eq!(
        report,
        vec![
            vec![
                EntryOutcome::Unreadable,
                EntryOutcome::Unreadable,
                EntryOutcome::NoMtime,
                EntryOutcome::Synced { id: 1 }
            ],
            vec![EntryOutcome::Synced { id: 2 }],
        ]
    );
    let rows = cache.simulations();
    assert_eq!(rows.len(), 2);
    assert_eq!((rows[0].collection_uid.as_str(), rows[0].name.as_str()), ("A", "fine"));
    assert_eq!((rows[1].collection_uid.as_str(), rows[1].name.as_str()), ("B", "also fine"));
    assert_eq!(ls_collections(&cache).len(), 2);
}

#[test]
fn same_entry_name_in_two_collections_gets_two_rows() {
    let found = vec![
        CollectionScan {
            path: "/a".to_string(),
            uid: "A".to_string(),
            entries: vec![entry("run1", 5, Some(container("a", 1)))],
        },
        CollectionScan {
            path: "/b".to_string(),
            uid: "B".to_string(),
            entries: vec![entry("run1", 5, Some(container("b", 2)))],
        },
    ];
    let (cache, _) = scan(Cache::new(), &found, Timestamp::new(9, 0)).expect("runs");
    assert_eq!(cache.simulations().len(), 2);
    let (cache, _) = scan(cache, &found, Timestamp::new(10, 0)).expect("runs");
    assert_eq!(cache.simulations().len(), 2);
    assert_eq!(get_sim_sync_time(&cache, "B", "run1"), Some(Timestamp::new(9, 0)));
}

#[test]
fn redeclared_uid_overwrites_the_stored_path() {
    let found = vec![
        CollectionScan { path: "/old".to_string(), uid: "A".to_string(), entries: vec![] },
        CollectionScan { path: "/new".to_string(), uid: "A".to_string(), entries: vec![] },
    ];
    let (cache, report) = scan(Cache::new(), &found, Timestamp::epoch()).expect("runs");
    assert_eq!(ls_collections(&cache), vec![("A".to_string(), "/new".to_string())]);
    assert_eq!(report, vec![Vec::<EntryOutcome>::new(), Vec::<EntryOutcome>::new()]);
}

#[test]
fn one_entry_is_dealt_with_by_its_own() {
    let mut cache = Cache::new();
    let e = entry("run1", 5, Some(container("one", 1)));
    assert_eq!(sync_entry(&mut cache, "A", &e, Timestamp::new(9, 0)), Ok(EntryOutcome::Synced { id: 1 }));
    assert_eq!(sync_entry(&mut cache, "A", &e, Timestamp::new(10, 0)), Ok(EntryOutcome::Unchanged));
    assert_eq!(cache.simulations().len(), 1);
    assert!(ls_collections(&cache).is_empty());
}

#[test]
fn run_without_an_id_left_ends_with_an_error() {
    let full = || {
        open_or_init(Some(Tables {
            collections: vec![],
            simulations: vec![StoredRow {
                id: i64::MAX,
                collection_uid: "A".to_string(),
                name: "old".to_string(),
                created_at: Timestamp::epoch(),
                description: String::new(),
                status: String::new(),
                submitted: false,
                parameters: vec![],
                last_sync_time: None,
            }],
            last_id: i64::MAX,
        }))
        .expect("opens")
    };
    let found = vec![CollectionScan {
        path: "/a".to_string(),
        uid: "A".to_string(),
        entries: vec![entry("old", 5, Some(container("old", 1))), entry("new", 5, Some(container("new", 2)))],
    }];
    assert_eq!(scan(full(), &found, Timestamp::new(9, 0)).err(), Some(StoreError::Full));
    let mut cache = full();
    assert_eq!(sync_collection(&mut cache, &found[0], Timestamp::new(9, 0)), Err(StoreError::Full));
    let only_old = vec![CollectionScan {
        path: "/a".to_string(),
        uid: "A".to_string(),
        entries: vec![entry("old", 5, Some(container("old", 1)))],
    }];
    let (cache, report) = scan(full(), &only_old, Timestamp::new(9, 0)).expect("runs");
    assert_eq!(report, vec![vec![EntryOutcome::Synced { id: i64::MAX }]]);
    assert_eq!(cache.simulations()[0].description, "old");
}

#[test]
fn parameter_space_gives_each_name_with_its_first_value() {
    let mut run2 = container("two", 200);
    run2.parameters.as_mut().unwrap().push(RawParameter {
        name: "solver".to_string(),
        attr: Some(RawAttr { int: None, float: None, text: Some("cg".to_string()) }),
    });
    let found = vec![
        CollectionScan {
            path: "/a".to_string(),
            uid: "A".to_string(),
            entries: vec![entry("run1", 5, Some(container("one", 100))), entry("run2", 5, Some(run2))],
        },
        CollectionScan {
            path: "/b".to_string(),
            uid: "B".to_string(),
            entries: vec![entry("run1", 5, Some(container("other", 7)))],
        },
    ];
    let (cache, _) = scan(Cache::new(), &found, Timestamp::new(9, 0)).expect("runs");
    let space = ls_params(&cache, "A");
    assert_eq!(space.len(), 2);
    assert_eq!(space.at(0).name, "steps");
    assert!(matches!(space.at(0).value, ParamValue::Int(100)));
    assert_eq!(space.at(1).name, "solver");
    assert!(matches!(&space.at(1).value, ParamValue::Text(s) if s == "cg"));
    assert_eq!(ls_params(&cache, "B").len(), 1);
    assert_eq!(ls_params(&cache, "C").len(), 0);
}

#[test]
fn container_is_read_only_where_it_is_newer_than_the_row() {
    let mut cache = Cache::new();
    assert_eq!(plan_entry(&cache, "A", "run1", None), EntryPlan::Skip(EntryOutcome::NoMtime));
    assert_eq!(plan_entry(&cache, "A", "run1", Some(Timestamp::new(5, 0))), EntryPlan::Decode);
    let raw = container("one", 1);
    assert_eq!(
        finish_entry_at(&mut cache, "A", "run1", Some(&raw), Timestamp::new(9, 0)),
        Ok(EntryOutcome::Synced { id: 1 })
    );
    assert_eq!(
        plan_entry(&cache, "A", "run1", Some(Timestamp::new(9, 0))),
        EntryPlan::Skip(EntryOutcome::Unchanged)
    );
    assert_eq!(plan_entry(&cache, "A", "run1", Some(Timestamp::new(9, 1))), EntryPlan::Decode);
    assert_eq!(plan_entry(&cache, "A", "run2", Some(Timestamp::new(1, 0))), EntryPlan::Decode);
    assert_eq!(plan_entry(&cache, "B", "run1", Some(Timestamp::new(1, 0))), EntryPlan::Decode);
}

#[test]
fn container_that_was_read_is_written_at_the_time_of_the_clock() {
    let mut cache = Cache::new();
    let before = Timestamp::now();
    let raw = container("one", 1);
    assert_eq!(finish_entry(&mut cache, "A", "run1", Some(&raw)), Ok(EntryOutcome::Synced { id: 1 }));
    assert_eq!(finish_entry(&mut cache, "A", "gone", None), Ok(EntryOutcome::Unreadable));
    let mut broken = container("broken", 1);
    broken.description = None;
    assert_eq!(finish_entry(&mut cache, "A", "broken", Some(&broken)), Ok(EntryOutcome::Unreadable));
    assert_eq!(cache.simulations().len(), 1);
    let at = get_sim_sync_time(&cache, "A", "run1").expect("written");
    assert!(!before.is_after(at));
    assert_eq!(plan_entry(&cache, "A", "run1", Some(before)), EntryPlan::Skip(EntryOutcome::Unchanged));
}

#[test]
fn entry_listed_twice_is_written_by_the_listing_that_is_due_last() {
    let twice = |first: &str, second: &str| {
        vec![
            CollectionScan {
                path: "/x".to_string(),
                uid: "A".to_string(),
                entries: vec![entry("run1", 100, Some(container(first, 1)))],
            },
            CollectionScan {
                path: "/y".to_string(),
                uid: "A".to_string(),
                entries: vec![entry("run1", 100, Some(container(second, 2)))],
            },
        ]
    };
    let found = twice("x", "y");
    let (cache, report) = scan(Cache::new(), &found, Timestamp::new(50, 0)).expect("runs");
    assert_eq!(report, vec![vec![EntryOutcome::Synced { id: 1 }], vec![EntryOutcome::Synced { id: 1 }]]);
    assert_eq!(cache.simulations().len(), 1);
    assert_eq!(cache.simulations()[0].description, "y");
    let (cache, report) = scan(cache, &found, Timestamp::new(200, 0)).expect("runs");
    assert_eq!(report, vec![vec![EntryOutcome::Synced { id: 1 }], vec![EntryOutcome::Unchanged]]);
    assert_eq!(cache.simulations().len(), 1);
    assert_eq!(cache.simulations()[0].description, "x");
    assert_eq!(ls_collections(&cache), vec![("A".to_string(), "/y".to_string())]);
}
