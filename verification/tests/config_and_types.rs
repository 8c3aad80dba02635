use memcontext::{Backend, ConfigError, DatabaseType, MemContextConfig, Message, RecallResult, Role, StorageType, Timestamp};

fn backend_of(c: &MemContextConfig) -> Result<(StorageType, String), ConfigError> {
    c.backend().map(|b| match b {
        Backend::SQLite { path } => (StorageType::DB, path),
        Backend::Local { path } => (StorageType::Local, path),
    })
}

#[test]
fn default_config_is_sqlite() {
    let c = MemContextConfig::default();
    assert_eq!(c.storage_type, StorageType::DB);
    assert_eq!(c.db_type, Some(DatabaseType::SQLite));
    assert_eq!(c.sqlite_storage_path.as_deref(), Some("./memcontext_data"));
    assert_eq!(backend_of(&c), Ok((StorageType::DB, "./memcontext_data".to_string())));
}

#[test]
fn backends_follow_the_config() {
    let mut c = MemContextConfig::default();
    c.db_type = None;
    c.sqlite_storage_path = None;
    assert_eq!(backend_of(&c), Ok((StorageType::DB, "./memcontext.db".to_string())));
    c.db_type = Some(DatabaseType::LanceDB);
    c.lancedb_storage_path = Some("./lance".to_string());
    assert_eq!(backend_of(&c), Err(ConfigError::UnsupportedDatabase(DatabaseType::LanceDB)));
    let d = c.database_config();
    assert_eq!(d.db_type, DatabaseType::LanceDB);
    assert_eq!(d.lancedb_storage_path.as_deref(), Some("./lance"));
    assert_eq!(d.sqlite_storage_path, None);
    c.db_type = Some(DatabaseType::Redis);
    assert_eq!(backend_of(&c), Err(ConfigError::UnsupportedDatabase(DatabaseType::Redis)));
    c.storage_type = StorageType::Local;
    assert_eq!(backend_of(&c), Ok((StorageType::Local, "./memcontext_data".to_string())));
    c.local_storage_path = Some("/tmp/x".to_string());
    assert_eq!(backend_of(&c), Ok((StorageType::Local, "/tmp/x".to_string())));
    assert_eq!(c.local_storage_dir(), "/tmp/x");
}

#[test]
fn sqlite_file_of_database_config() {
    let mut c = MemContextConfig::default();
    c.sqlite_storage_path = None;
    let d = c.database_config();
    assert_eq!(d.sqlite_file(), Ok("./memcontext.db".to_string()));
}

#[test]
fn names_of_roles_and_databases() {
    assert_eq!(Role::User.name(), "user");
    assert_eq!(Role::LLM.name(), "assistant");
    assert_eq!(DatabaseType::MySQL.name(), "mysql");
    assert_eq!(DatabaseType::PostgreSQL.name(), "postgresql");
    assert_eq!(DatabaseType::SQLite.name(), "sqlite");
    assert_eq!(DatabaseType::Redis.name(), "redis");
    assert_eq!(DatabaseType::LanceDB.name(), "lanceDB");
}

#[test]
fn new_message_has_no_id_and_a_current_time() {
    let m = Message::new("s".to_string(), Role::User, "hi".to_string()).unwrap();
    assert_eq!(m.id, None);
    assert_eq!(m.tokens, None);
    assert_eq!(m.session_id, "s");
    assert_eq!(m.content, "hi");
    assert!(m.timestamp.secs > 1_600_000_000);
    assert!(m.timestamp.nanos < 1_000_000_000);
    let d = m.duplicate();
    assert_eq!(d.content, "hi");
}

#[test]
fn recall_result_context_string() {
    let t = Timestamp { secs: 0, nanos: 0 };
    let msgs = vec![
        Message::with_timestamp("s".to_string(), Role::User, "hello".to_string(), t),
        Message::with_timestamp("s".to_string(), Role::LLM, "hi there".to_string(), t),
    ];
    let r = RecallResult::time_series(msgs);
    assert_eq!(r.strategy, "time_series");
    assert_eq!(r.to_context_string(), "user: hello\nassistant: hi there");
    assert_eq!(r.len(), 2);
    assert!(!r.is_empty());
    assert!(r.metadata.is_empty());
    let e = RecallResult::keywords(Vec::new());
    assert_eq!(e.strategy, "keywords");
    assert!(e.is_empty());
    assert_eq!(e.to_context_string(), "");
    assert_eq!(RecallResult::vec_semantic(Vec::new()).strategy, "vec_semantic");
}

#[test]
fn timestamp_of_clock_readings() {
    assert_eq!(memcontext::types::timestamp_of(Some((5, 7))), Ok(Timestamp { secs: 5, nanos: 7 }));
    assert_eq!(
        memcontext::types::timestamp_of(Some((i64::MAX as u64, 999_999_999))),
        Ok(Timestamp { secs: i64::MAX, nanos: 999_999_999 })
    );
    assert_eq!(memcontext::types::timestamp_of(Some((i64::MAX as u64 + 1, 0))), Err(memcontext::ClockError::OutOfRange));
    assert_eq!(memcontext::types::timestamp_of(None), Err(memcontext::ClockError::OutOfRange));
    assert!(memcontext::types::current_time().is_ok());
}
