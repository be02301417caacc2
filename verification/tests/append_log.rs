//! Append-only logging: replay on open, windowed reads, compaction and
//! retention.

use timeloop::{
    Argon2Config, Event, EventType, LogArchive, PersistenceFormat, Session, Storage,
    StorageConfig, StorageFiles,
};

fn config(format: PersistenceFormat, append_only: bool) -> StorageConfig {
    let mut c = StorageConfig::default();
    c.format = format;
    c.append_only = append_only;
    c
}

fn session(id: &str, name: &str, created_at: i64) -> Session {
    Session {
        id: id.to_string(),
        name: name.to_string(),
        created_at,
        ended_at: None,
        parent_session_id: None,
        branch_name: None,
    }
}

fn key_event(id: &str, session_id: &str, key: &str, seq: u64) -> Event {
    Event {
        id: id.to_string(),
        session_id: session_id.to_string(),
        event_type: EventType::KeyPress { key: key.to_string(), timestamp: 5 },
        sequence_number: seq,
        timestamp: 5,
    }
}

#[test]
fn test_append_only_json() {
    let path = "append_only.json".to_string();
    let cfg = config(PersistenceFormat::Text, true);
    let mut storage =
        Storage::open_with_format(&path, PersistenceFormat::Text, &cfg, StorageFiles::empty())
            .unwrap();
    storage.store_session(&session("aj-session", "Append JSON", 1)).unwrap();
    storage.store_event(&key_event("e1", "aj-session", "k", 1)).unwrap();
    storage.flush().unwrap();

    let storage2 = Storage::open_with_format(
        &path,
        PersistenceFormat::Text,
        &cfg,
        storage.into_files(),
    )
    .unwrap();
    let events = storage2.get_events_for_session(&"aj-session".to_string());
    assert_eq!(events.len(), 1);
}

#[test]
fn test_append_cbor_roundtrip() {
    let path = "state.cbor".to_string();
    let cfg = config(PersistenceFormat::Binary, true);
    let mut storage = Storage::open_with_format(
        &path,
        PersistenceFormat::Binary,
        &cfg,
        StorageFiles::empty(),
    )
    .unwrap();
    storage.store_session(&session("ac-session", "Append CBOR", 1)).unwrap();
    storage.store_event(&key_event("e1", "ac-session", "k", 1)).unwrap();
    storage.flush().unwrap();

    let storage2 = Storage::open_with_format(
        &path,
        PersistenceFormat::Binary,
        &cfg,
        storage.into_files(),
    )
    .unwrap();
    let events = storage2.get_events_for_session(&"ac-session".to_string());
    assert_eq!(events.len(), 1);
}

#[test]
fn test_append_replay_without_flush() {
    let path = "replayed.json".to_string();
    let cfg = config(PersistenceFormat::Text, true);
    let mut storage =
        Storage::open_with_format(&path, PersistenceFormat::Text, &cfg, StorageFiles::empty())
            .unwrap();
    storage.store_session(&session("r-session", "Replayed", 1)).unwrap();
    storage.store_event(&key_event("e1", "r-session", "a", 1)).unwrap();
    storage.store_event(&key_event("e2", "r-session", "b", 2)).unwrap();

    let storage2 = Storage::open_with_format(
        &path,
        PersistenceFormat::Text,
        &cfg,
        storage.into_files(),
    )
    .unwrap();
    assert_eq!(storage2.get_events_for_session(&"r-session".to_string()).len(), 2);
}

#[test]
fn test_scrambled_append_and_last_n() {
    let path = "scrambled.json".to_string();
    let cfg = config(PersistenceFormat::Text, true);
    let mut storage =
        Storage::open_with_format(&path, PersistenceFormat::Text, &cfg, StorageFiles::empty())
            .unwrap();
    storage.store_session(&session("sc", "Scrambled", 1)).unwrap();
    let order: [u64; 10] = [7, 2, 9, 0, 5, 4, 8, 1, 6, 3];
    for seq in order {
        storage
            .store_event(&key_event(&format!("ev-{}", seq), "sc", &format!("k{}", seq), seq))
            .unwrap();
    }
    storage.flush().unwrap();

    let storage2 = Storage::open_with_format(
        &path,
        PersistenceFormat::Text,
        &cfg,
        storage.into_files(),
    )
    .unwrap();

    let last3 = storage2.get_last_n_events(&"sc".to_string(), 3);
    assert_eq!(last3.len(), 3);
    assert_eq!(last3[0].sequence_number, 7);
    assert_eq!(last3[1].sequence_number, 8);
    assert_eq!(last3[2].sequence_number, 9);

    let none = storage2.get_last_n_events(&"sc".to_string(), 0);
    assert!(none.is_empty());

    let all = storage2.get_events_for_session(&"sc".to_string());
    assert_eq!(all.len(), 10);
    for (i, e) in all.iter().enumerate() {
        assert_eq!(e.sequence_number, i as u64);
    }
}

#[test]
fn test_encrypted_append_log_roundtrip() {
    let path = "encl.json".to_string();
    let cfg = config(PersistenceFormat::Text, true);
    let params = Argon2Config { memory_kib: 8, iterations: 1, parallelism: 1 };
    let mut storage = Storage::with_encryption_opts(
        &path,
        "pw",
        &params,
        PersistenceFormat::Text,
        &cfg,
        StorageFiles::empty(),
    )
    .unwrap();
    storage.store_session(&session("el", "EncLog", 1)).unwrap();
    storage.store_event(&key_event("e1", "el", "a", 1)).unwrap();
    storage.store_event(&key_event("e2", "el", "b", 2)).unwrap();

    let storage2 = Storage::with_encryption_opts(
        &path,
        "pw",
        &params,
        PersistenceFormat::Text,
        &cfg,
        storage.into_files(),
    )
    .unwrap();
    assert_eq!(storage2.get_events_for_session(&"el".to_string()).len(), 2);
}

#[test]
fn test_compact_rotates_on_size_and_enforces_retention() {
    let path = "state.json".to_string();
    let cfg = config(PersistenceFormat::Text, true);
    let mut storage =
        Storage::open_with_format(&path, PersistenceFormat::Text, &cfg, StorageFiles::empty())
            .unwrap();
    storage.set_max_log_size_bytes(Some(1024));
    storage.set_retention_count(2);

    storage.store_session(&session("rt-session", "Rotate", 1)).unwrap();
    for i in 0..200u64 {
        storage
            .store_event(&key_event(&format!("ev-{}", i), "rt-session", &format!("k{}", i), i))
            .unwrap();
    }
    storage.compact().unwrap();

    let rotated_count = storage.files.archives.len();
    assert!(rotated_count >= 1);

    // Manufacture extra archives, refill the log past the threshold, and
    // compact again: retention keeps at most the configured number.
    for t in 0..4u64 {
        storage.files.archives.push(LogArchive {
            name: format!("state.json.events.tlog.rot.test{}", t),
            data: vec![120u8],
        });
    }
    for i in 200..400u64 {
        storage
            .store_event(&key_event(&format!("ev-{}", i), "rt-session", &format!("k{}", i), i))
            .unwrap();
    }
    storage.compact().unwrap();

    let rots = storage.files.archives.len();
    assert!(rots <= storage.retention_count() as usize + 1);
    assert!(storage.files.log.is_empty());
}

#[test]
fn test_compact_below_thresholds_keeps_log() {
    let path = "quiet.json".to_string();
    let cfg = config(PersistenceFormat::Text, true);
    let mut storage =
        Storage::open_with_format(&path, PersistenceFormat::Text, &cfg, StorageFiles::empty())
            .unwrap();
    storage.store_session(&session("q", "Quiet", 1)).unwrap();
    storage.store_event(&key_event("e1", "q", "a", 1)).unwrap();
    storage.store_event(&key_event("e2", "q", "b", 2)).unwrap();
    let log_before = storage.files.log.clone();
    assert!(!log_before.is_empty());

    storage.compact().unwrap();

    assert_eq!(storage.files.log, log_before);
    assert!(storage.files.archives.is_empty());
    assert!(storage.persisted);
}
