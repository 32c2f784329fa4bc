use nia::migration::{validate_sequence, MigrationKind};
use nia::migrator::Migrator;
use nia::registry::{app_migrations, DATABASE_URL};

#[test]
fn app_migrations_are_versions_one_and_two() {
    let ms = app_migrations();
    assert_eq!(ms.len(), 2);
    assert_eq!(ms[0].version, 1);
    assert_eq!(ms[0].description, "create_initial_tables");
    assert_eq!(ms[0].kind, MigrationKind::Up);
    assert_eq!(ms[1].version, 2);
    assert_eq!(ms[1].description, "create_sessions_and_messages_tables");
    assert_eq!(ms[1].kind, MigrationKind::Up);
    assert!(validate_sequence(&ms).is_ok());
    assert_eq!(DATABASE_URL, "sqlite:nia.db");
}

#[test]
fn fresh_store_gets_three_tables_and_three_indexes() {
    let mut m = Migrator::new(app_migrations(), &vec![]).unwrap();
    let mut scripts = String::new();
    while let Some(s) = m.next_step() {
        scripts.push_str(&s.sql);
        m.record(true).unwrap();
    }
    assert!(m.is_complete());
    assert_eq!(scripts.matches("CREATE TABLE").count(), 3);
    assert_eq!(scripts.matches("CREATE INDEX").count(), 3);
    for table in ["settings (", "sessions (", "messages ("] {
        assert!(scripts.contains(&format!("CREATE TABLE IF NOT EXISTS {}", table)));
    }
    for index in [
        "idx_sessions_created_at ON sessions(created_at DESC)",
        "idx_messages_session_id ON messages(session_id)",
        "idx_messages_timestamp ON messages(session_id, timestamp)",
    ] {
        assert!(scripts.contains(&format!("CREATE INDEX {}", index)));
    }
    assert!(scripts.contains("CHECK(speaker IN ('You', 'Agent'))"));
    assert!(scripts.contains("REFERENCES sessions(id) ON DELETE CASCADE"));
}
