//! The collaborator types driving the engine: session manager, branch
//! manager, event recorder.

use timeloop::{
    BranchManager, Event, EventRecorder, EventType, PersistenceFormat, Session,
    SessionManager, Storage, StorageConfig, StorageFiles,
};

fn engine() -> Storage {
    let path = "events.db".to_string();
    let mut cfg = StorageConfig::default();
    cfg.format = PersistenceFormat::Text;
    Storage::open_with_format(&path, PersistenceFormat::Text, &cfg, StorageFiles::empty())
        .unwrap()
}

fn session(id: &str, name: &str, created_at: i64) -> Session {
    Session {
        id: id.to_string(),
        name: name.to_string(),
        created_at,
        ended_at: None,
        parent_session_id: None,
        branch_name: None,
    }
}

fn key_event(id: &str, session_id: &str, key: &str, seq: u64) -> Event {
    Event {
        id: id.to_string(),
        session_id: session_id.to_string(),
        event_type: EventType::KeyPress { key: key.to_string(), timestamp: 5 },
        sequence_number: seq,
        timestamp: 5,
    }
}

#[test]
fn test_session_creation() {
    let mut session_manager = SessionManager::with_storage(engine());
    let session_id = session_manager.create_session(&"test-session".to_string()).unwrap();
    assert!(!session_id.is_empty());

    let session = session_manager.get_session(&session_id).unwrap();
    assert_eq!(session.name, "test-session");
    assert_eq!(session.id, session_id);
}

#[test]
fn test_event_recording() {
    let event_recorder = EventRecorder::with_storage(&"test-session".to_string(), engine());
    let events = event_recorder.get_events_for_session(&"test-session".to_string());
    assert_eq!(events.len(), 0);
}

#[test]
fn test_recorder_assigns_increasing_sequence_numbers() {
    let mut recorder = EventRecorder::with_storage(&"rec".to_string(), engine());
    recorder.record_key_press(&"a".to_string()).unwrap();
    recorder.record_key_press(&"b".to_string()).unwrap();
    recorder
        .record_command(&"ls".to_string(), &"ok".to_string(), 0, &"/".to_string())
        .unwrap();
    let events = recorder.get_events_for_session(&"rec".to_string());
    assert_eq!(events.len(), 3);
    assert_eq!(events[0].sequence_number, 1);
    assert_eq!(events[1].sequence_number, 2);
    assert_eq!(events[2].sequence_number, 3);
    let last = recorder.get_last_event(&"rec".to_string()).unwrap();
    assert_eq!(last.sequence_number, 3);
}

#[test]
fn test_session_summary_counts() {
    let mut manager = SessionManager::with_storage(engine());
    manager.storage.store_session(&session("sum", "Summed", 1)).unwrap();
    manager
        .storage
        .store_event(&Event {
            id: "c1".to_string(),
            session_id: "sum".to_string(),
            event_type: EventType::Command {
                command: "make".to_string(),
                output: "done".to_string(),
                exit_code: 0,
                working_directory: "/src".to_string(),
                timestamp: 5,
            },
            sequence_number: 1,
            timestamp: 5,
        })
        .unwrap();
    manager.storage.store_event(&key_event("k1", "sum", "x", 2)).unwrap();
    manager
        .storage
        .store_event(&Event {
            id: "f1".to_string(),
            session_id: "sum".to_string(),
            event_type: EventType::FileChange {
                path: "a.txt".to_string(),
                change_type: timeloop::FileChangeType::Created,
                content_hash: None,
                timestamp: 6,
            },
            sequence_number: 3,
            timestamp: 6,
        })
        .unwrap();
    let summary = manager.get_session_summary(&"sum".to_string()).unwrap();
    assert_eq!(summary.session_id, "sum");
    assert_eq!(summary.commands_executed, 1);
    assert_eq!(summary.files_modified, 1);
    assert_eq!(summary.last_command, "make");
}

#[test]
fn test_branch_timeline_replay() {
    let mut bm = BranchManager::with_storage(engine());
    bm.storage.store_session(&session("parent", "Parent", 1)).unwrap();
    bm.storage.store_event(&key_event("p1", "parent", "a", 1)).unwrap();
    bm.storage.store_event(&key_event("p2", "parent", "b", 2)).unwrap();
    bm.storage.store_event(&key_event("p3", "parent", "c", 3)).unwrap();
    let branch_id = bm
        .create_branch(
            &"parent".to_string(),
            &"alt".to_string(),
            &"p2".to_string(),
            None,
        )
        .unwrap();
    bm.storage.store_event(&key_event("b1", &branch_id, "d", 4)).unwrap();

    let replayed = bm.replay_branch(&branch_id).unwrap();
    assert_eq!(replayed.len(), 2);
    assert_eq!(replayed[0].id, "p1");
    assert_eq!(replayed[1].id, "p2");

    let timeline = bm.get_branch_timeline(&branch_id).unwrap();
    assert_eq!(timeline.parent_events.len(), 2);
    assert_eq!(timeline.branch_events.len(), 1);
    let all = timeline.get_all_events();
    assert_eq!(all.len(), 3);
    assert_eq!(all[0].sequence_number, 1);
    assert_eq!(all[2].sequence_number, 4);
    assert_eq!(timeline.get_divergence_point().unwrap().id, "p2");

    let branches = bm.get_branches_for_session(&"parent".to_string());
    assert_eq!(branches.len(), 1);
    assert_eq!(branches[0].id, branch_id);
}
