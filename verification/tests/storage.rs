//! Round trips, persistence and isolation of the storage handle.

use timeloop::{
    AutosavePolicy, Event, EventType, PersistenceFormat, Session, Storage, StorageConfig,
    StorageFiles, TimelineBranch,
};

fn config(format: PersistenceFormat, append_only: bool) -> StorageConfig {
    let mut c = StorageConfig::default();
    c.format = format;
    c.append_only = append_only;
    c
}

fn session(id: &str, name: &str, created_at: i64) -> Session {
    Session {
        id: id.to_string(),
        name: name.to_string(),
        created_at,
        ended_at: None,
        parent_session_id: None,
        branch_name: None,
    }
}

fn key_event(id: &str, session_id: &str, key: &str, seq: u64) -> Event {
    Event {
        id: id.to_string(),
        session_id: session_id.to_string(),
        event_type: EventType::KeyPress { key: key.to_string(), timestamp: 5 },
        sequence_number: seq,
        timestamp: 5,
    }
}

#[test]
fn test_in_memory_storage() {
    let path = "state.json".to_string();
    let storage = Storage::open_with_format(
        &path,
        PersistenceFormat::Text,
        &config(PersistenceFormat::Text, false),
        StorageFiles::empty(),
    )
    .unwrap();
    let mut storage = storage;
    storage.store_session(&session("test-session", "Test Session", 1)).unwrap();
    let retrieved = storage.get_session(&"test-session".to_string()).unwrap();
    assert_eq!(retrieved.id, "test-session");

    storage.store_event(&key_event("e1", "test-session", "a", 1)).unwrap();
    let events = storage.get_events_for_session(&"test-session".to_string());
    assert_eq!(events.len(), 1);
}

#[test]
fn test_persistence_roundtrip() {
    let path = "state.json".to_string();
    let cfg = config(PersistenceFormat::Text, false);
    let mut storage =
        Storage::open_with_format(&path, PersistenceFormat::Text, &cfg, StorageFiles::empty())
            .unwrap();

    assert!(storage.list_sessions().is_empty());
    assert!(storage.list_branches().is_empty());

    storage.store_session(&session("roundtrip-session", "Roundtrip Session", 1)).unwrap();
    let branch = TimelineBranch {
        id: "roundtrip-branch".to_string(),
        name: "Roundtrip Branch".to_string(),
        parent_session_id: "roundtrip-session".to_string(),
        branch_point_event_id: "".to_string(),
        created_at: 2,
        description: None,
    };
    storage.store_branch(&branch).unwrap();

    let sessions = storage.list_sessions();
    assert_eq!(sessions.len(), 1);
    assert_eq!(sessions[0].id, "roundtrip-session");
    let branches = storage.list_branches();
    assert_eq!(branches.len(), 1);
    assert_eq!(branches[0].id, "roundtrip-branch");

    storage.store_event(&key_event("e1", "roundtrip-session", "a", 1)).unwrap();
    storage.store_event(&key_event("e2", "roundtrip-session", "b", 2)).unwrap();
    storage.flush().unwrap();

    let files = storage.into_files();
    let storage =
        Storage::open_with_format(&path, PersistenceFormat::Text, &cfg, files).unwrap();

    let sessions = storage.list_sessions();
    assert_eq!(sessions.len(), 1);
    assert_eq!(sessions[0].id, "roundtrip-session");
    let branches = storage.list_branches();
    assert_eq!(branches.len(), 1);
    assert_eq!(branches[0].id, "roundtrip-branch");

    let events = storage.get_events_for_session(&"roundtrip-session".to_string());
    assert_eq!(events.len(), 2);
    if let EventType::KeyPress { key, .. } = &events[0].event_type {
        assert_eq!(key, "a");
    } else {
        panic!("expected key press event");
    }
    if let EventType::KeyPress { key, .. } = &events[1].event_type {
        assert_eq!(key, "b");
    } else {
        panic!("expected key press event");
    }
}

#[test]
fn test_persistence_roundtrip_tempdir() {
    let path = "state.json".to_string();
    let cfg = config(PersistenceFormat::Text, false);
    let mut storage1 =
        Storage::open_with_format(&path, PersistenceFormat::Text, &cfg, StorageFiles::empty())
            .unwrap();
    storage1.store_session(&session("persistence-test", "Persistence Test", 1)).unwrap();
    storage1.flush().unwrap();

    let storage2 = Storage::open_with_format(
        &path,
        PersistenceFormat::Text,
        &cfg,
        storage1.into_files(),
    )
    .unwrap();
    let retrieved = storage2.get_session(&"persistence-test".to_string()).unwrap();
    assert_eq!(retrieved.id, "persistence-test");
}

#[test]
fn test_cbor_roundtrip() {
    let path = "state.cbor".to_string();
    let cfg = config(PersistenceFormat::Binary, false);
    let mut storage = Storage::open_with_format(
        &path,
        PersistenceFormat::Binary,
        &cfg,
        StorageFiles::empty(),
    )
    .unwrap();

    storage.store_session(&session("cbor-session", "CBOR Session", 1)).unwrap();
    let branch = TimelineBranch {
        id: "cbor-branch".to_string(),
        name: "CBOR Branch".to_string(),
        parent_session_id: "cbor-session".to_string(),
        branch_point_event_id: "".to_string(),
        created_at: 2,
        description: None,
    };
    storage.store_branch(&branch).unwrap();
    storage.store_event(&key_event("e1", "cbor-session", "x", 1)).unwrap();
    storage.store_event(&key_event("e2", "cbor-session", "y", 2)).unwrap();
    storage.flush().unwrap();

    let storage = Storage::open_with_format(
        &path,
        PersistenceFormat::Binary,
        &cfg,
        storage.into_files(),
    )
    .unwrap();

    let sessions = storage.list_sessions();
    assert_eq!(sessions.len(), 1);
    assert_eq!(sessions[0].id, "cbor-session");
    let branches = storage.list_branches();
    assert_eq!(branches.len(), 1);
    assert_eq!(branches[0].id, "cbor-branch");
    let events = storage.get_events_for_session(&"cbor-session".to_string());
    assert_eq!(events.len(), 2);
    if let EventType::KeyPress { key, .. } = &events[0].event_type {
        assert_eq!(key, "x");
    } else {
        panic!("expected key press event");
    }
    if let EventType::KeyPress { key, .. } = &events[1].event_type {
        assert_eq!(key, "y");
    } else {
        panic!("expected key press event");
    }
}

#[test]
fn test_storage_operations() {
    let path = "events.db".to_string();
    let cfg = config(PersistenceFormat::Text, false);
    let mut storage =
        Storage::open_with_format(&path, PersistenceFormat::Text, &cfg, StorageFiles::empty())
            .unwrap();
    let s = session("test-id", "test-session", 1);
    storage.store_session(&s).unwrap();
    let retrieved = storage.get_session(&"test-id".to_string()).unwrap();
    assert_eq!(retrieved.name, s.name);
}

#[test]
fn test_concurrent_access_isolation() {
    let cfg = config(PersistenceFormat::Text, false);
    let path1 = "storage1.json".to_string();
    let path2 = "storage2.json".to_string();
    let mut storage1 =
        Storage::open_with_format(&path1, PersistenceFormat::Text, &cfg, StorageFiles::empty())
            .unwrap();
    let mut storage2 =
        Storage::open_with_format(&path2, PersistenceFormat::Text, &cfg, StorageFiles::empty())
            .unwrap();

    storage1
        .store_session(&session("concurrent-session-1", "Concurrent Session 1", 1))
        .unwrap();
    storage2
        .store_session(&session("concurrent-session-2", "Concurrent Session 2", 1))
        .unwrap();

    let sessions1 = storage1.list_sessions();
    let sessions2 = storage2.list_sessions();
    assert_eq!(sessions1.len(), 1);
    assert_eq!(sessions1[0].id, "concurrent-session-1");
    assert_eq!(sessions2.len(), 1);
    assert_eq!(sessions2[0].id, "concurrent-session-2");

    for i in 0..10u64 {
        let e1 = key_event(
            &format!("e1-{}", i),
            "concurrent-session-1",
            &format!("key1-{}", i),
            i,
        );
        storage1.store_event(&e1).unwrap();
        let e2 = key_event(
            &format!("e2-{}", i),
            "concurrent-session-2",
            &format!("key2-{}", i),
            i,
        );
        storage2.store_event(&e2).unwrap();
    }

    let events1 = storage1.get_events_for_session(&"concurrent-session-1".to_string());
    let events2 = storage2.get_events_for_session(&"concurrent-session-2".to_string());
    assert_eq!(events1.len(), 10);
    assert_eq!(events2.len(), 10);
    for event in &events1 {
        assert_eq!(event.session_id, "concurrent-session-1");
        if let EventType::KeyPress { key, .. } = &event.event_type {
            assert!(key.starts_with("key1-"));
        }
    }
    for event in &events2 {
        assert_eq!(event.session_id, "concurrent-session-2");
        if let EventType::KeyPress { key, .. } = &event.event_type {
            assert!(key.starts_with("key2-"));
        }
    }

    assert!(storage1.get_session(&"concurrent-session-2".to_string()).is_none());
    assert!(storage2.get_session(&"concurrent-session-1".to_string()).is_none());
}

#[test]
fn test_autosave_policies() {
    let cfg = config(PersistenceFormat::Text, false);
    let path = "autosave_test.json".to_string();
    let mut storage =
        Storage::open_with_format(&path, PersistenceFormat::Text, &cfg, StorageFiles::empty())
            .unwrap();
    storage.set_autosave_policy(AutosavePolicy::Debounce { debounce_ms: 100 });
    storage.store_session(&session("autosave-session", "Autosave Test", 1)).unwrap();

    let path2 = "autosave_test2.json".to_string();
    let mut storage2 =
        Storage::open_with_format(&path2, PersistenceFormat::Text, &cfg, StorageFiles::empty())
            .unwrap();
    storage2.set_autosave_policy(AutosavePolicy::Coalescing {
        write_threshold: 3,
        max_delay_ms: 200,
    });
    for i in 0..5u64 {
        let event = key_event(
            &format!("e-{}", i),
            "autosave-session-2",
            &format!("key{}", i),
            i,
        );
        storage2.store_event(&event).unwrap();
    }

    let sessions = storage.list_sessions();
    assert_eq!(sessions.len(), 1);
    let events = storage2.get_events_for_session(&"autosave-session-2".to_string());
    assert_eq!(events.len(), 5);
}

#[test]
fn test_backup_and_restore() {
    let cfg = config(PersistenceFormat::Text, false);
    let path = "backup_test.json".to_string();
    let mut storage =
        Storage::open_with_format(&path, PersistenceFormat::Text, &cfg, StorageFiles::empty())
            .unwrap();
    storage.store_session(&session("backup-session", "Backup Test", 1)).unwrap();
    storage.store_event(&key_event("e1", "backup-session", "test-key", 1)).unwrap();

    let backup = storage.backup_bytes();

    let mut restored =
        Storage::open_with_format(&path, PersistenceFormat::Text, &cfg, StorageFiles::empty())
            .unwrap();
    restored.restore_from_bytes(&backup).unwrap();

    let sessions = restored.list_sessions();
    assert_eq!(sessions.len(), 1);
    assert_eq!(sessions[0].id, "backup-session");
    let events = restored.get_events_for_session(&"backup-session".to_string());
    assert_eq!(events.len(), 1);
    if let EventType::KeyPress { key, .. } = &events[0].event_type {
        assert_eq!(key, "test-key");
    }
}

#[test]
fn test_store_event_replaces_by_id() {
    let cfg = config(PersistenceFormat::Text, false);
    let path = "replace.json".to_string();
    let mut storage =
        Storage::open_with_format(&path, PersistenceFormat::Text, &cfg, StorageFiles::empty())
            .unwrap();
    storage.store_event(&key_event("same-id", "s", "first", 1)).unwrap();
    storage.store_event(&key_event("same-id", "s", "second", 1)).unwrap();
    let events = storage.get_events_for_session(&"s".to_string());
    assert_eq!(events.len(), 1);
    if let EventType::KeyPress { key, .. } = &events[0].event_type {
        assert_eq!(key, "second");
    } else {
        panic!("expected key press event");
    }
}

#[test]
fn test_delete_session_cascades() {
    let cfg = config(PersistenceFormat::Text, false);
    let path = "cascade.json".to_string();
    let mut storage =
        Storage::open_with_format(&path, PersistenceFormat::Text, &cfg, StorageFiles::empty())
            .unwrap();
    storage.store_session(&session("gone", "Gone", 1)).unwrap();
    storage.store_session(&session("kept", "Kept", 2)).unwrap();
    storage.store_event(&key_event("e1", "gone", "a", 1)).unwrap();
    storage.store_event(&key_event("e2", "kept", "b", 1)).unwrap();
    storage.delete_session(&"gone".to_string()).unwrap();
    assert!(storage.get_session(&"gone".to_string()).is_none());
    assert!(storage.get_session(&"kept".to_string()).is_some());
    assert_eq!(storage.get_events_for_session(&"gone".to_string()).len(), 0);
    assert_eq!(storage.get_events_for_session(&"kept".to_string()).len(), 1);
}

#[test]
fn test_open_rejects_garbage_snapshot() {
    let cfg = config(PersistenceFormat::Text, false);
    let path = "garbage.json".to_string();
    let files = StorageFiles {
        snapshot: Some(vec![1u8, 2, 3, 4, 5]),
        log: Vec::new(),
        archives: Vec::new(),
    };
    let r = Storage::open_with_format(&path, PersistenceFormat::Text, &cfg, files);
    assert!(matches!(r, Err(timeloop::TimeLoopError::Serialization(_))));
}
