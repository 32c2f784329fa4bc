use nia::store::{SessionFields, SessionLog, Speaker, StoreError};

fn fields(created_at: i64) -> SessionFields {
    SessionFields::new(created_at - 60, created_at, "gpt-realtime".to_string(), created_at).unwrap()
}

#[test]
fn session_fields_compute_duration() {
    let f = SessionFields::new(100, 160, "m".to_string(), 170).unwrap();
    assert_eq!(f.duration_seconds, 60);
    assert_eq!(f.input_audio_tokens, 0);
    assert_eq!(f.output_text_tokens, 0);
    assert!(f.mic_device.is_none());
    assert!(SessionFields::new(160, 100, "m".to_string(), 0).is_none());
    assert!(SessionFields::new(i64::MIN, i64::MAX, "m".to_string(), 0).is_none());
    assert_eq!(SessionFields::new(5, 5, "m".to_string(), 0).unwrap().duration_seconds, 0);
}

#[test]
fn speaker_values() {
    assert_eq!(Speaker::parse("You"), Ok(Speaker::You));
    assert_eq!(Speaker::parse("Agent"), Ok(Speaker::Agent));
    assert_eq!(Speaker::parse("you"), Err(StoreError::ConstraintViolation));
    assert_eq!(Speaker::parse(""), Err(StoreError::ConstraintViolation));
    assert_eq!(Speaker::You.as_str(), "You");
    assert_eq!(Speaker::Agent.as_str(), "Agent");
}

#[test]
fn session_ids_increase_from_one() {
    let mut log = SessionLog::new();
    assert_eq!(log.insert_session(fields(10)), Ok(1));
    assert_eq!(log.insert_session(fields(20)), Ok(2));
    assert!(log.delete_session(2));
    assert_eq!(log.insert_session(fields(30)), Ok(3));
}

#[test]
fn bystander_is_rejected() {
    let mut log = SessionLog::new();
    let s = log.insert_session(fields(10)).unwrap();
    assert_eq!(
        log.insert_message(s, "Bystander", "hi".to_string(), 1, 1),
        Err(StoreError::ConstraintViolation)
    );
    assert!(log.messages_of(s).is_empty());
    assert_eq!(log.insert_message(s, "You", "hi".to_string(), 1, 1), Ok(1));
    assert_eq!(log.insert_message(s, "Agent", "hello".to_string(), 2, 2), Ok(2));
    let ms = log.messages_of(s);
    assert_eq!(ms.len(), 2);
    assert_eq!(ms[0].speaker, Speaker::You);
    assert_eq!(ms[0].text, "hi");
    assert_eq!(ms[1].speaker, Speaker::Agent);
    assert_eq!(ms[1].timestamp, 2);
}

#[test]
fn message_needs_an_existing_session() {
    let mut log = SessionLog::new();
    assert_eq!(
        log.insert_message(7, "You", "hi".to_string(), 1, 1),
        Err(StoreError::ForeignKeyViolation)
    );
    assert_eq!(
        log.insert_message(7, "Bystander", "hi".to_string(), 1, 1),
        Err(StoreError::ConstraintViolation)
    );
}

#[test]
fn deleting_a_session_deletes_its_messages() {
    let mut log = SessionLog::new();
    let a = log.insert_session(fields(10)).unwrap();
    let b = log.insert_session(fields(20)).unwrap();
    log.insert_message(a, "You", "one".to_string(), 1, 1).unwrap();
    log.insert_message(b, "Agent", "two".to_string(), 2, 2).unwrap();
    log.insert_message(a, "Agent", "three".to_string(), 3, 3).unwrap();
    assert_eq!(log.messages_of(a).len(), 2);
    assert!(log.delete_session(a));
    assert!(log.messages_of(a).is_empty());
    assert!(!log.has_session(a));
    let rest = log.messages_of(b);
    assert_eq!(rest.len(), 1);
    assert_eq!(rest[0].text, "two");
    assert!(!log.delete_session(a));
    assert_eq!(
        log.insert_message(a, "You", "late".to_string(), 4, 4),
        Err(StoreError::ForeignKeyViolation)
    );
}

#[test]
fn recent_sessions_come_newest_first() {
    let mut log = SessionLog::new();
    let t1 = log.insert_session(fields(1_000)).unwrap();
    let t3 = log.insert_session(fields(3_000)).unwrap();
    let t2 = log.insert_session(fields(2_000)).unwrap();
    let ids: Vec<i64> = log.recent_sessions().iter().map(|s| s.id).collect();
    assert_eq!(ids, vec![t3, t2, t1]);
    let times: Vec<i64> = log.recent_sessions().iter().map(|s| s.fields.created_at).collect();
    assert_eq!(times, vec![3_000, 2_000, 1_000]);
}

#[test]
fn same_second_sessions_list_later_insertion_first() {
    let mut log = SessionLog::new();
    let a = log.insert_session(fields(50)).unwrap();
    let b = log.insert_session(fields(50)).unwrap();
    let ids: Vec<i64> = log.recent_sessions().iter().map(|s| s.id).collect();
    assert_eq!(ids, vec![b, a]);
    assert!(SessionLog::new().recent_sessions().is_empty());
}
