use light::{PostgresBackend, SqliteBackend, WorldError};

#[test]
fn sqlite_open_failure_is_sqlite_kind() {
    let r = SqliteBackend::new("/nonexistent-dir/light-test/map.sqlite");
    assert!(matches!(r, Err(WorldError::Sqlite(_))));
}

#[test]
fn postgres_bad_configuration_is_postgres_kind() {
    // An unparsable configuration string fails before any network use.
    let r = PostgresBackend::new("this is = not :: a dsn".to_string());
    assert!(matches!(r, Err(WorldError::Postgres(_))));
}
