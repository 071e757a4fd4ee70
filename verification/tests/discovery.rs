use regex::Regex;
use simdex::collection::{find_entries, DirChild, PathState};
use simdex::config::{
    DATA_FILE_NAME, DEFAULT_DB_PATH, DEFAULT_ROOT, MAX_DEPTH, META_FILE_EXTENSION, META_FILE_PREFIX,
    MIN_DEPTH,
};
use simdex::db::{upsert_collection, Cache};
use simdex::discovery::{
    create_identifier, create_identifier_at, find_all, find_one, get_author, get_path, get_uid,
    marker_file_name, marker_uid, new_collection, new_collection_at, strict_marker_uid,
    DiscoveryError, WalkEntry,
};
use simdex::types::{Author, Timestamp};

fn file(depth: usize, parent: &str, name: &str) -> Option<WalkEntry> {
    Some(WalkEntry {
        depth,
        is_file: true,
        file_name: Some(name.to_string()),
        parent: Some(parent.to_string()),
    })
}

fn child(name: &str, is_dir: bool, has_container: bool) -> Option<DirChild> {
    Some(DirChild {
        path: format!("/c/{}", name),
        name: Some(name.to_string()),
        is_dir: Some(is_dir),
        has_container,
    })
}

#[test]
fn names_and_limits_of_the_layout() {
    assert_eq!(META_FILE_PREFIX, ".bamboost-collection-");
    assert_eq!(DATA_FILE_NAME, "data.h5");
    assert_eq!(META_FILE_EXTENSION, ".yml");
    assert_eq!(DEFAULT_DB_PATH, "simdex.db");
    assert_eq!(DEFAULT_ROOT, ".");
    assert_eq!((MIN_DEPTH, MAX_DEPTH), (1, 5));
}

#[test]
fn marker_name_declares_what_follows_the_prefix() {
    assert_eq!(marker_uid(".bamboost-collection-ABC123"), Some("ABC123".to_string()));
    assert_eq!(marker_uid(".bamboost-collection-ABC123.yml"), Some("ABC123".to_string()));
    assert_eq!(marker_uid(".bamboost-collection-a.b"), Some("a.b".to_string()));
    assert_eq!(marker_uid(".bamboost-collection-a.yml.yml"), Some("a.yml".to_string()));
    assert_eq!(marker_uid(".bamboost-collection-"), Some(String::new()));
    assert_eq!(marker_uid(".bamboost-collection-.yml"), Some(String::new()));
    assert_eq!(marker_uid(".bamboost-collection-über"), Some("über".to_string()));
}

#[test]
fn name_without_the_prefix_declares_nothing() {
    assert_eq!(marker_uid("bamboost-collection-ABC"), None);
    assert_eq!(marker_uid(".bamboost-collection"), None);
    assert_eq!(marker_uid("x.bamboost-collection-ABC"), None);
    assert_eq!(marker_uid(""), None);
    assert_eq!(marker_uid("data.h5"), None);
}

#[test]
fn strict_uid_has_a_character_and_no_dot() {
    assert_eq!(strict_marker_uid(".bamboost-collection-ABC123"), Some("ABC123".to_string()));
    assert_eq!(strict_marker_uid(".bamboost-collection-ABC123.yml"), Some("ABC123".to_string()));
    assert_eq!(strict_marker_uid(".bamboost-collection-a.b"), None);
    assert_eq!(strict_marker_uid(".bamboost-collection-a.yml.yml"), None);
    assert_eq!(strict_marker_uid(".bamboost-collection-"), None);
    assert_eq!(strict_marker_uid(".bamboost-collection-.yml"), None);
    assert_eq!(strict_marker_uid("ABC123.yml"), None);
}

#[test]
fn strict_uid_agrees_with_the_pattern_of_marker_names() {
    let re = Regex::new(&format!(r"^{}(?P<uid>[^\.]+)(\.yml)?$", regex::escape(META_FILE_PREFIX))).unwrap();
    let names = [
        ".bamboost-collection-ABC123",
        ".bamboost-collection-ABC123.yml",
        ".bamboost-collection-a.b",
        ".bamboost-collection-a.b.yml",
        ".bamboost-collection-a.yml.yml",
        ".bamboost-collection-.yml",
        ".bamboost-collection-",
        ".bamboost-collection-yml",
        ".bamboost-collection-a.yaml",
        ".bamboost-collection-a.ymlx",
        ".bamboost-collection-a\nb",
        ".bamboost-collection-a b.yml",
        ".bamboost-collection-ü.yml",
        "x.bamboost-collection-a",
        "Xbamboost-collection-a",
        ".bamboost-collection",
        "",
        ".yml",
    ];
    for name in names {
        let expected = re.captures(name).and_then(|c| c.name("uid")).map(|m| m.as_str().to_string());
        assert_eq!(strict_marker_uid(name), expected, "{:?}", name);
    }
}

#[test]
fn marker_file_name_is_prefix_uid_and_extension() {
    assert_eq!(marker_file_name("ABC123"), ".bamboost-collection-ABC123.yml");
    assert_eq!(marker_file_name("a.b"), ".bamboost-collection-a.b.yml");
    assert_eq!(marker_uid(&marker_file_name("a.b")), Some("a.b".to_string()));
    assert_eq!(marker_uid(&marker_file_name("")), Some(String::new()));
}

#[test]
fn walk_declares_each_marker_file_with_its_directory() {
    let walk = vec![
        file(1, "R", ".bamboost-collection-ABC123"),
        Some(WalkEntry { depth: 1, is_file: false, file_name: Some("run1".to_string()), parent: Some("R".to_string()) }),
        file(2, "R/run1", "data.h5"),
        None,
        file(3, "R/x/y", ".bamboost-collection-DEF.yml"),
        Some(WalkEntry {
            depth: 2,
            is_file: false,
            file_name: Some(".bamboost-collection-DIR".to_string()),
            parent: Some("R/x".to_string()),
        }),
        Some(WalkEntry { depth: 2, is_file: true, file_name: None, parent: Some("R/x".to_string()) }),
        file(5, "R/1/2/3/4", ".bamboost-collection-DEEP"),
    ];
    assert_eq!(
        find_all(&walk),
        vec![
            ("R".to_string(), "ABC123".to_string()),
            ("R/x/y".to_string(), "DEF".to_string()),
            ("R/1/2/3/4".to_string(), "DEEP".to_string()),
        ]
    );
}

#[test]
fn marker_files_beyond_the_depth_do_not_count() {
    let walk = vec![
        file(0, "", ".bamboost-collection-ROOT"),
        file(6, "R/1/2/3/4/5", ".bamboost-collection-DEEPER"),
    ];
    assert!(find_all(&walk).is_empty());
    assert_eq!(find_one("ROOT", &walk), Err(DiscoveryError::NotFound));
    assert_eq!(find_one("DEEPER", &walk), Err(DiscoveryError::NotFound));
}

#[test]
fn same_uid_may_be_declared_twice() {
    let walk = vec![file(1, "R/a", ".bamboost-collection-X"), file(1, "R/b", ".bamboost-collection-X.yml")];
    assert_eq!(find_all(&walk).len(), 2);
    assert_eq!(find_one("X", &walk), Ok("R/a".to_string()));
}

#[test]
fn collection_is_found_by_either_name_of_its_marker_file() {
    let walk = vec![
        file(1, "R/a", ".bamboost-collection-AB"),
        file(2, "R/b/c", ".bamboost-collection-A.yml"),
        file(2, "R/d", ".bamboost-collection-A"),
    ];
    assert_eq!(find_one("A", &walk), Ok("R/b/c".to_string()));
    assert_eq!(find_one("AB", &walk), Ok("R/a".to_string()));
    assert_eq!(find_one("B", &walk), Err(DiscoveryError::NotFound));
    assert_eq!(find_one("A.yml", &walk), Ok("R/b/c".to_string()));
    assert_eq!(find_one("a", &walk), Err(DiscoveryError::NotFound));
    assert_eq!(find_one("A", &vec![]), Err(DiscoveryError::NotFound));
}

#[test]
fn cached_path_is_taken_if_something_is_there() {
    let mut cache = Cache::new();
    upsert_collection(&mut cache, "A", "/cached/a");
    let walk = vec![file(1, "/walked/a", ".bamboost-collection-A"), file(1, "/walked/b", ".bamboost-collection-B")];
    assert_eq!(get_path(&cache, "A", true, &walk), Ok("/cached/a".to_string()));
    assert_eq!(get_path(&cache, "A", false, &walk), Ok("/walked/a".to_string()));
    assert_eq!(get_path(&cache, "B", true, &walk), Ok("/walked/b".to_string()));
    assert_eq!(get_path(&cache, "C", true, &walk), Err(DiscoveryError::NotFound));
    assert_eq!(get_path(&cache, "A", false, &vec![]), Err(DiscoveryError::NotFound));
}

#[test]
fn uid_of_a_directory_is_that_of_its_first_marker_file() {
    let state = PathState::Directory(vec![
        child("run1", true, true),
        None,
        Some(DirChild { path: "/c/?".to_string(), name: None, is_dir: Some(false), has_container: false }),
        child(".bamboost-collection-a.b", false, false),
        child(".bamboost-collection-ABC123.yml", false, false),
        child(".bamboost-collection-OTHER", false, false),
    ]);
    assert_eq!(get_uid(&state), Ok("ABC123".to_string()));
}

#[test]
fn uid_is_asked_of_a_readable_directory_with_a_marker_file() {
    assert_eq!(get_uid(&PathState::Missing), Err(DiscoveryError::NotADirectory));
    assert_eq!(get_uid(&PathState::NotADirectory), Err(DiscoveryError::NotADirectory));
    assert_eq!(get_uid(&PathState::Unreadable), Err(DiscoveryError::Unreadable));
    assert_eq!(get_uid(&PathState::Directory(vec![])), Err(DiscoveryError::NoMarker));
    assert_eq!(get_uid(&PathState::Directory(vec![child("run1", true, true)])), Err(DiscoveryError::NoMarker));
}

#[test]
fn entries_are_the_directories_that_hold_a_container() {
    let state = PathState::Directory(vec![
        child("run1", true, true),
        child("notes.txt", false, false),
        child("empty", true, false),
        None,
        Some(DirChild { path: "/c/odd".to_string(), name: Some("odd".to_string()), is_dir: None, has_container: true }),
        child("data.h5", false, true),
        child("run2", true, true),
    ]);
    assert_eq!(find_entries(&state), vec!["/c/run1".to_string(), "/c/run2".to_string()]);
}

#[test]
fn path_that_is_no_readable_directory_has_no_entries() {
    assert!(find_entries(&PathState::Missing).is_empty());
    assert!(find_entries(&PathState::NotADirectory).is_empty());
    assert!(find_entries(&PathState::Unreadable).is_empty());
    assert!(find_entries(&PathState::Directory(vec![])).is_empty());
}

#[test]
fn collection_on_a_non_empty_directory_is_a_conflict() {
    let state = PathState::Directory(vec![child("something", false, false)]);
    let r = new_collection(&state, "X", None);
    let e = r.expect_err("refused");
    assert_eq!(e, DiscoveryError::DirectoryNotEmpty);
    assert!(e.is_conflict());
    let unreadable_child = PathState::Directory(vec![None]);
    assert_eq!(new_collection(&unreadable_child, "X", None).err(), Some(DiscoveryError::DirectoryNotEmpty));
}

#[test]
fn collection_on_a_file_is_a_conflict() {
    let e = new_collection(&PathState::NotADirectory, "X", None).expect_err("refused");
    assert_eq!(e, DiscoveryError::AlreadyExists);
    assert!(e.is_conflict());
}

#[test]
fn directory_that_cannot_be_listed_is_no_conflict() {
    let e = new_collection(&PathState::Unreadable, "X", None).expect_err("refused");
    assert_eq!(e, DiscoveryError::Unreadable);
    assert!(!e.is_conflict());
    assert!(!DiscoveryError::NotFound.is_conflict());
    assert!(!DiscoveryError::NoMarker.is_conflict());
    assert!(!DiscoveryError::NotADirectory.is_conflict());
}

#[test]
fn collection_on_a_free_path_makes_the_directory() {
    let author = Author { name: "Ada".to_string(), email: "ada@example.org".to_string() };
    let plan = new_collection_at(&PathState::Missing, "X", "2024-05-01T12:00:00+02:00".to_string(), Some(author))
        .expect("planned");
    assert!(plan.create_directory);
    assert_eq!(plan.identifier.file_name, ".bamboost-collection-X.yml");
    assert_eq!(plan.identifier.uid, "X");
    assert_eq!(plan.identifier.created, "2024-05-01T12:00:00+02:00");
    let meta = plan.identifier.meta_file();
    assert_eq!(meta.uid, "X");
    assert_eq!(meta.created, "2024-05-01T12:00:00+02:00");
    let a = meta.author.expect("author");
    assert_eq!((a.name.as_str(), a.email.as_str()), ("Ada", "ada@example.org"));
}

#[test]
fn collection_on_an_empty_directory_keeps_the_directory() {
    let plan = new_collection(&PathState::Directory(vec![]), "X", None).expect("planned");
    assert!(!plan.create_directory);
    assert_eq!(plan.identifier.file_name, ".bamboost-collection-X.yml");
    assert!(plan.identifier.author.is_none());
    assert!(Timestamp::parse_rfc3339(&plan.identifier.created).is_some());
}

#[test]
fn test_create_identifier_creates_yaml_with_timestamp() {
    let uid = "testuid";
    let identifier = create_identifier(uid, None);
    assert_eq!(identifier.file_name, format!("{}{}.{}", META_FILE_PREFIX, uid, "yml"));
    let meta = identifier.meta_file();
    assert_eq!(meta.uid, uid);
    assert!(!meta.created.is_empty(), "'created' is missing");
    assert!(Timestamp::parse_rfc3339(meta.created).is_some(), "'created' is no timestamp");
    let fixed = create_identifier_at(uid, "then".to_string(), None);
    assert_eq!(fixed.created, "then");
    assert_eq!(fixed.file_name, identifier.file_name);
}

#[test]
fn author_needs_both_name_and_address() {
    let a = get_author(Some("Ada".to_string()), Some("ada@example.org".to_string())).expect("author");
    assert_eq!((a.name.as_str(), a.email.as_str()), ("Ada", "ada@example.org"));
    assert!(get_author(Some("Ada".to_string()), None).is_none());
    assert!(get_author(None, Some("ada@example.org".to_string())).is_none());
    assert!(get_author(None, None).is_none());
}
