use vstd::prelude::*;

use crate::migration::{valid_sequence, versions, Migration, MigrationKind};

verus! {

/// Where the application keeps its data: one local SQLite file.
pub const DATABASE_URL: &'static str = "sqlite:nia.db";

pub const INITIAL_TABLES_DESCRIPTION: &'static str = "create_initial_tables";

/// Version 1: the key/value settings table.
pub const INITIAL_TABLES_SQL: &'static str = r#"
                CREATE TABLE IF NOT EXISTS settings (
                    key TEXT PRIMARY KEY,
                    value TEXT
                );
            "#;

pub const SESSIONS_AND_MESSAGES_DESCRIPTION: &'static str = "create_sessions_and_messages_tables";

/// Version 2: recorded sessions, their messages, and the three indexes that
/// serve recent-first listing and per-session playback.
pub const SESSIONS_AND_MESSAGES_SQL: &'static str = r#"
                CREATE TABLE IF NOT EXISTS sessions (
                    id INTEGER PRIMARY KEY AUTOINCREMENT,
                    start_time INTEGER NOT NULL,
                    end_time INTEGER NOT NULL,
                    duration_seconds INTEGER NOT NULL,
                    model TEXT NOT NULL,
                    input_audio_tokens INTEGER DEFAULT 0,
                    output_audio_tokens INTEGER DEFAULT 0,
                    input_text_tokens INTEGER DEFAULT 0,
                    output_text_tokens INTEGER DEFAULT 0,
                    total_cost REAL DEFAULT 0,
                    mic_device TEXT,
                    speaker_device TEXT,
                    created_at INTEGER DEFAULT (strftime('%s', 'now'))
                );

                CREATE TABLE IF NOT EXISTS messages (
                    id INTEGER PRIMARY KEY AUTOINCREMENT,
                    session_id INTEGER NOT NULL,
                    speaker TEXT NOT NULL CHECK(speaker IN ('You', 'Agent')),
                    text TEXT NOT NULL,
                    timestamp INTEGER NOT NULL,
                    created_at INTEGER DEFAULT (strftime('%s', 'now')),
                    FOREIGN KEY (session_id) REFERENCES sessions(id) ON DELETE CASCADE
                );

                CREATE INDEX idx_sessions_created_at ON sessions(created_at DESC);
                CREATE INDEX idx_messages_session_id ON messages(session_id);
                CREATE INDEX idx_messages_timestamp ON messages(session_id, timestamp);
            "#;

/// The application's migrations, oldest first. Published steps are never
/// edited; a change of schema is a new step with the next version.
pub fn app_migrations() -> (r: Vec<Migration>)
    ensures
        r@.len() == 2,
        r@[0].version == 1,
        r@[0].description@ == INITIAL_TABLES_DESCRIPTION@,
        r@[0].sql@ == INITIAL_TABLES_SQL@,
        r@[0].kind == MigrationKind::Up,
        r@[1].version == 2,
        r@[1].description@ == SESSIONS_AND_MESSAGES_DESCRIPTION@,
        r@[1].sql@ == SESSIONS_AND_MESSAGES_SQL@,
        r@[1].kind == MigrationKind::Up,
        valid_sequence(versions(r@)),
{
    let mut r: Vec<Migration> = Vec::new();
    r.push(
        Migration {
            version: 1,
            description: INITIAL_TABLES_DESCRIPTION.to_owned(),
            sql: INITIAL_TABLES_SQL.to_owned(),
            kind: MigrationKind::Up,
        },
    );
    r.push(
        Migration {
            version: 2,
            description: SESSIONS_AND_MESSAGES_DESCRIPTION.to_owned(),
            sql: SESSIONS_AND_MESSAGES_SQL.to_owned(),
            kind: MigrationKind::Up,
        },
    );
    assert(versions(r@)[0] == 1 && versions(r@)[1] == 2);
    r
}

} // verus!
