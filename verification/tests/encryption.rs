//! Encryption at rest: round trips, wrong passphrases, rotation, and
//! salt-mismatch detection on import.

use timeloop::{
    Argon2Config, Event, EventType, PersistenceFormat, Session, Storage, StorageConfig,
    StorageFiles, TimeLoopError,
};

fn config(format: PersistenceFormat) -> StorageConfig {
    let mut c = StorageConfig::default();
    c.format = format;
    c.append_only = false;
    c
}

fn fast_params() -> Argon2Config {
    Argon2Config { memory_kib: 8, iterations: 1, parallelism: 1 }
}

fn session(id: &str, name: &str, created_at: i64) -> Session {
    Session {
        id: id.to_string(),
        name: name.to_string(),
        created_at,
        ended_at: None,
        parent_session_id: None,
        branch_name: None,
    }
}

fn key_event(id: &str, session_id: &str, key: &str, seq: u64) -> Event {
    Event {
        id: id.to_string(),
        session_id: session_id.to_string(),
        event_type: EventType::KeyPress { key: key.to_string(), timestamp: 5 },
        sequence_number: seq,
        timestamp: 5,
    }
}

fn contains_subslice(haystack: &[u8], needle: &[u8]) -> bool {
    if needle.is_empty() || haystack.len() < needle.len() {
        return false;
    }
    for start in 0..=(haystack.len() - needle.len()) {
        if &haystack[start..start + needle.len()] == needle {
            return true;
        }
    }
    false
}

#[test]
fn test_encrypted_roundtrip_and_wrong_passphrase() {
    let path = "enc.json".to_string();
    let cfg = config(PersistenceFormat::Text);
    let params = fast_params();
    let mut storage = Storage::with_encryption_opts(
        &path,
        "pw",
        &params,
        PersistenceFormat::Text,
        &cfg,
        StorageFiles::empty(),
    )
    .unwrap();
    storage.store_session(&session("SecretSessionId", "SecretSessionName", 1)).unwrap();
    storage.flush().unwrap();

    let files = storage.into_files();
    let snapshot = files.snapshot.clone().unwrap();
    assert!(!contains_subslice(&snapshot, b"SecretSessionId"));
    assert!(!contains_subslice(&snapshot, b"SecretSessionName"));

    let reopened = Storage::with_encryption_opts(
        &path,
        "pw",
        &params,
        PersistenceFormat::Text,
        &cfg,
        StorageFiles { snapshot: Some(snapshot.clone()), log: Vec::new(), archives: Vec::new() },
    )
    .unwrap();
    let s = reopened.get_session(&"SecretSessionId".to_string()).unwrap();
    assert_eq!(s.name, "SecretSessionName");

    let wrong = Storage::with_encryption_opts(
        &path,
        "not-the-passphrase",
        &params,
        PersistenceFormat::Text,
        &cfg,
        StorageFiles { snapshot: Some(snapshot), log: Vec::new(), archives: Vec::new() },
    );
    assert!(matches!(wrong, Err(TimeLoopError::Decryption(_))));
}

#[test]
fn test_change_passphrase() {
    let path = "state.json".to_string();
    let cfg = config(PersistenceFormat::Text);
    let params = fast_params();
    let mut storage = Storage::with_encryption_opts(
        &path,
        "oldpass",
        &params,
        PersistenceFormat::Text,
        &cfg,
        StorageFiles::empty(),
    )
    .unwrap();
    storage.store_session(&session("cp-session", "ChangePass Session", 1)).unwrap();
    storage.flush().unwrap();

    storage.change_passphrase("newpass").unwrap();

    let files = storage.into_files();
    let snapshot = files.snapshot.clone().unwrap();

    let storage2 = Storage::with_encryption_opts(
        &path,
        "newpass",
        &params,
        PersistenceFormat::Text,
        &cfg,
        StorageFiles { snapshot: Some(snapshot.clone()), log: Vec::new(), archives: Vec::new() },
    )
    .unwrap();
    let retrieved = storage2.get_session(&"cp-session".to_string()).unwrap();
    assert_eq!(retrieved.id, "cp-session");

    let err = Storage::with_encryption_opts(
        &path,
        "oldpass",
        &params,
        PersistenceFormat::Text,
        &cfg,
        StorageFiles { snapshot: Some(snapshot), log: Vec::new(), archives: Vec::new() },
    );
    assert!(err.is_err());
}

#[test]
fn test_cbor_encryption_roundtrip() {
    let path = "state-encrypted.cbor".to_string();
    let cfg = config(PersistenceFormat::Binary);
    let params = fast_params();
    let mut storage = Storage::with_encryption_opts(
        &path,
        "securepass",
        &params,
        PersistenceFormat::Binary,
        &cfg,
        StorageFiles::empty(),
    )
    .unwrap();
    storage.store_session(&session("enc-session", "Encrypted Session", 1)).unwrap();
    storage.flush().unwrap();

    storage.change_passphrase("newsecurepass").unwrap();
    let files = storage.into_files();
    let snapshot = files.snapshot.clone().unwrap();

    let storage2 = Storage::with_encryption_opts(
        &path,
        "newsecurepass",
        &params,
        PersistenceFormat::Binary,
        &cfg,
        StorageFiles { snapshot: Some(snapshot.clone()), log: Vec::new(), archives: Vec::new() },
    )
    .unwrap();
    let retrieved = storage2.get_session(&"enc-session".to_string()).unwrap();
    assert_eq!(retrieved.id, "enc-session");

    let err = Storage::with_encryption_opts(
        &path,
        "securepass",
        &params,
        PersistenceFormat::Binary,
        &cfg,
        StorageFiles { snapshot: Some(snapshot), log: Vec::new(), archives: Vec::new() },
    );
    assert!(err.is_err());
}

#[test]
fn test_change_passphrase_requires_path() {
    let cfg = config(PersistenceFormat::Text);
    let mut storage = Storage::new(&cfg);
    let r = storage.change_passphrase("whatever");
    assert!(matches!(r, Err(TimeLoopError::Configuration(_))));
}

#[test]
fn test_import_salt_mismatch() {
    let cfg = config(PersistenceFormat::Text);
    let params = fast_params();
    let path_a = "a.json".to_string();
    let mut a = Storage::with_encryption_opts(
        &path_a,
        "pw",
        &params,
        PersistenceFormat::Text,
        &cfg,
        StorageFiles::empty(),
    )
    .unwrap();
    a.store_session(&session("exported", "Exported", 1)).unwrap();
    a.store_event(&key_event("e1", "exported", "k", 1)).unwrap();
    let bundle = a.export_session(&"exported".to_string()).unwrap();

    let path_b = "b.json".to_string();
    let mut b = Storage::with_encryption_opts(
        &path_b,
        "pw",
        &params,
        PersistenceFormat::Text,
        &cfg,
        StorageFiles::empty(),
    )
    .unwrap();
    let r = b.import_session(&bundle);
    assert!(matches!(r, Err(TimeLoopError::SaltMismatch(_))));
}

#[test]
fn test_export_import_same_handle() {
    let cfg = config(PersistenceFormat::Text);
    let params = fast_params();
    let path = "self.json".to_string();
    let mut a = Storage::with_encryption_opts(
        &path,
        "pw",
        &params,
        PersistenceFormat::Text,
        &cfg,
        StorageFiles::empty(),
    )
    .unwrap();
    a.store_session(&session("round", "Round", 1)).unwrap();
    a.store_event(&key_event("e1", "round", "k", 1)).unwrap();
    let bundle = a.export_session(&"round".to_string()).unwrap();
    a.delete_session(&"round".to_string()).unwrap();
    assert!(a.get_session(&"round".to_string()).is_none());
    let id = a.import_session(&bundle).unwrap();
    assert_eq!(id, "round");
    assert!(a.get_session(&"round".to_string()).is_some());
    assert_eq!(a.get_events_for_session(&"round".to_string()).len(), 1);
}

#[test]
fn test_export_missing_session() {
    let cfg = config(PersistenceFormat::Text);
    let path = "missing.json".to_string();
    let storage = Storage::open_with_format(
        &path,
        PersistenceFormat::Text,
        &cfg,
        StorageFiles::empty(),
    )
    .unwrap();
    let r = storage.export_session(&"nope".to_string());
    assert!(matches!(r, Err(TimeLoopError::SessionNotFound(_))));
}
