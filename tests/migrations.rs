use nia::migration::{validate_sequence, Migration, MigrationError, MigrationKind};
use nia::migrator::Migrator;

fn step(version: i64, description: &str) -> Migration {
    Migration {
        version,
        description: description.to_string(),
        sql: format!("CREATE TABLE IF NOT EXISTS t{} (x INTEGER);", version),
        kind: MigrationKind::Up,
    }
}

/// Runs every step the migrator hands out, succeeding each, and returns the
/// versions recorded in order.
fn run_all(m: &mut Migrator) -> Vec<i64> {
    let mut recorded = Vec::new();
    loop {
        let version = match m.next_step() {
            Some(s) => s.version,
            None => break,
        };
        m.record(true).unwrap();
        recorded.push(version);
    }
    recorded
}

#[test]
fn consecutive_versions_are_valid() {
    assert!(validate_sequence(&vec![step(1, "a"), step(2, "b"), step(3, "c")]).is_ok());
    assert!(validate_sequence(&vec![]).is_ok());
}

#[test]
fn duplicate_version_is_invalid() {
    match validate_sequence(&vec![step(1, "a"), step(1, "b")]) {
        Err(MigrationError::InvalidMigrationSequence { index, version }) => {
            assert_eq!(index, 1);
            assert_eq!(version, 1);
        }
        other => panic!("unexpected {:?}", other),
    }
}

#[test]
fn gap_is_invalid() {
    match validate_sequence(&vec![step(1, "a"), step(3, "c")]) {
        Err(MigrationError::InvalidMigrationSequence { index, version }) => {
            assert_eq!(index, 1);
            assert_eq!(version, 3);
        }
        other => panic!("unexpected {:?}", other),
    }
}

#[test]
fn decreasing_and_non_positive_versions_are_invalid() {
    assert!(matches!(
        validate_sequence(&vec![step(2, "b"), step(1, "a")]),
        Err(MigrationError::InvalidMigrationSequence { index: 1, version: 1 })
    ));
    assert!(matches!(
        validate_sequence(&vec![step(0, "z")]),
        Err(MigrationError::InvalidMigrationSequence { index: 0, version: 0 })
    ));
    assert!(matches!(
        validate_sequence(&vec![step(i64::MAX, "max"), step(i64::MIN, "wrap")]),
        Err(MigrationError::InvalidMigrationSequence { index: 1, .. })
    ));
}

#[test]
fn duplicate_list_refused_before_any_step() {
    let m = Migrator::new(vec![step(1, "a"), step(1, "a")], &vec![]);
    assert!(matches!(
        m,
        Err(MigrationError::InvalidMigrationSequence { index: 1, version: 1 })
    ));
}

#[test]
fn fresh_store_runs_every_step_in_order() {
    let mut m = Migrator::new(vec![step(1, "a"), step(2, "b")], &vec![]).unwrap();
    assert!(!m.is_complete());
    assert_eq!(run_all(&mut m), vec![1, 2]);
    assert!(m.is_complete());
    assert!(m.next_step().is_none());
}

#[test]
fn second_run_is_a_no_op() {
    let ms = || vec![step(1, "a"), step(2, "b"), step(3, "c")];
    let mut first = Migrator::new(ms(), &vec![]).unwrap();
    let ledger = run_all(&mut first);
    assert_eq!(ledger, vec![1, 2, 3]);
    let mut second = Migrator::new(ms(), &ledger).unwrap();
    assert!(second.is_complete());
    assert_eq!(run_all(&mut second), Vec::<i64>::new());
}

#[test]
fn partially_migrated_store_runs_only_missing_steps() {
    let mut m = Migrator::new(vec![step(1, "a"), step(2, "b"), step(3, "c")], &vec![1]).unwrap();
    assert_eq!(run_all(&mut m), vec![2, 3]);
}

#[test]
fn failed_step_aborts_and_names_the_step() {
    let mut m = Migrator::new(vec![step(1, "a"), step(2, "b"), step(3, "c")], &vec![]).unwrap();
    assert_eq!(m.next_step().unwrap().version, 1);
    assert!(m.record(true).is_ok());
    assert_eq!(m.next_step().unwrap().sql, "CREATE TABLE IF NOT EXISTS t2 (x INTEGER);");
    match m.record(false) {
        Err(MigrationError::MigrationFailed { version, description }) => {
            assert_eq!(version, 2);
            assert_eq!(description, "b");
        }
        other => panic!("unexpected {:?}", other),
    }
    assert!(m.next_step().is_none());
    assert!(!m.is_complete());
}
