use simdex::cli::{Cli, Commands};

#[test]
fn commands_name_the_cache_they_work_on() {
    let scan = Commands::Scan { root: ".".to_string(), db: "simdex.db".to_string() };
    assert_eq!(scan.cache_path(), Some("simdex.db"));
    assert!(scan.writes_cache());
    let ls = Commands::Ls { db: "a.db".to_string() };
    assert_eq!(ls.cache_path(), Some("a.db"));
    assert!(!ls.writes_cache());
    let params = Commands::LsParams { db: "b.db".to_string(), collection: "A".to_string() };
    assert_eq!(params.cache_path(), Some("b.db"));
    let display = Commands::Display { db_path: "c.db".to_string(), collection: "A".to_string() };
    assert_eq!(display.cache_path(), Some("c.db"));
    let migrate = Commands::Migrate { root: ".".to_string() };
    assert_eq!(migrate.cache_path(), None);
    let cli = Cli { command: Commands::Create { path: "new".to_string(), uid: "X".to_string() } };
    assert_eq!(cli.command.cache_path(), None);
    assert!(!cli.command.writes_cache());
}
