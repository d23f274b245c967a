use carddown::algorithm::CardState;
use carddown::card::{Card, CardId};
use carddown::db::{get_db, get_global_state, CardDb, CardEntry, GlobalState};
use std::collections::HashMap;
use carddown::persist::{AtomicWrite, Loaded, SaveAction, SaveState, SaveStep};
use carddown::scan::{load_scan_index, ScannedFile};
use carddown::time::Timestamp;

fn entry(name: &str, revise_count: u64) -> CardEntry {
    CardEntry {
        added: Timestamp::new(1, 0),
        card: Card {
            id: CardId::from_bytes(*blake3::hash(name.as_bytes()).as_bytes()),
            file: name.to_string(),
            line: 0,
            prompt: name.to_string(),
            response: Vec::new(),
            tags: Vec::new(),
        },
        last_revised: None,
        leech: false,
        orphan: false,
        revise_count,
        state: CardState::default(),
    }
}

#[test]
fn missing_or_corrupt_store_is_empty() {
    assert!(get_db(Loaded::Missing).is_empty());
    assert!(get_db(Loaded::Corrupt).is_empty());
    assert!(get_db(Loaded::Read(Vec::new())).is_empty());
    let db = get_db(Loaded::Read(vec![entry("a", 1), entry("b", 2), entry("a", 3)]));
    assert_eq!(db.len(), 2);
    assert_eq!(db.get(&entry("a", 0).card.id).unwrap().revise_count, 3);
}

#[test]
fn missing_or_corrupt_state_is_the_default() {
    assert_eq!(get_global_state(Loaded::Missing), GlobalState::default());
    assert_eq!(get_global_state(Loaded::Corrupt), GlobalState::default());
    let mut state = GlobalState::default();
    state.total_cards_revised = 5;
    state.last_revise_session = Some(Timestamp::new(7, 7));
    let read = get_global_state(Loaded::Read(state.clone()));
    assert_eq!(read, state);
}

#[test]
fn missing_or_corrupt_index_is_empty() {
    assert!(load_scan_index(Loaded::Missing).entries().is_empty());
    assert!(load_scan_index(Loaded::Corrupt).entries().is_empty());
    let index = load_scan_index(Loaded::Read(vec![ScannedFile {
        path: "a.md".to_string(),
        mtime: 3,
    }]));
    assert_eq!(index.get(&"a.md".to_string()), Some(3));
}

#[test]
fn a_file_is_written_beside_and_renamed() {
    let mut write = AtomicWrite::new();
    assert_eq!(write.next(true), SaveAction::RemoveTemp);
    // whether the removal worked does not matter
    assert_eq!(write.next(false), SaveAction::CreateTemp);
    assert_eq!(write.next(true), SaveAction::WriteTemp);
    assert_eq!(write.next(true), SaveAction::SyncTemp);
    assert_eq!(write.next(true), SaveAction::RenameOverTarget);
    assert_eq!(write.next(true), SaveAction::Finish);
    assert_eq!(write.state, SaveState::Done);
    assert_eq!(write.next(true), SaveAction::Nothing);
    assert_eq!(write.next(false), SaveAction::Nothing);
    assert_eq!(write.state, SaveState::Done);
}

#[test]
fn a_failed_step_ends_the_writing() {
    let steps = [SaveStep::Create, SaveStep::Write, SaveStep::Sync, SaveStep::Rename];
    for (fails_at, step) in steps.iter().enumerate() {
        let mut write = AtomicWrite::new();
        write.next(true);
        write.next(true);
        let mut renamed = false;
        for _ in 0..fails_at {
            renamed |= write.next(true) == SaveAction::RenameOverTarget;
        }
        assert_eq!(write.next(false), SaveAction::Fail(*step));
        assert_eq!(write.state, SaveState::Failed);
        assert_eq!(write.next(true), SaveAction::Nothing);
        assert_eq!(renamed, *step == SaveStep::Rename);
    }
}

fn sorted(db: &CardDb) -> Vec<CardEntry> {
    let mut entries = db.values().clone();
    entries.sort_by_key(|e| e.card.id.to_hex());
    entries
}

#[test]
fn test_get_db() {
    let entries = vec![entry("foo", 1), entry("baz", 2)];
    let db = CardDb::from_entries(entries.clone());
    let read_db = get_db(Loaded::Read(entries));
    assert_eq!(sorted(&db), sorted(&read_db));
    assert_eq!(read_db.len(), 2);
}

#[test]
fn test_get_global_state() {
    let mut state = GlobalState::default();
    let read_state = get_global_state(Loaded::Read(state.clone()));
    assert_eq!(state, read_state);

    state.optimal_factor_matrix = HashMap::new();
    state
        .optimal_factor_matrix
        .insert(1, HashMap::from([(240, 4_600_000)]));
    let read_state = get_global_state(Loaded::Read(state.clone()));
    assert_eq!(state, read_state);
}

#[test]
fn test_corrupted_db_file() {
    // A file that cannot be understood stands for the empty store
    let db = get_db(Loaded::Corrupt);
    assert!(db.is_empty());

    // Test with empty file
    let db = get_db(Loaded::Read(Vec::new()));
    assert!(db.is_empty());
}

#[test]
fn test_corrupted_global_state_file() {
    // Should handle corrupted state file gracefully by creating default
    let state = get_global_state(Loaded::Corrupt);
    assert_eq!(state, GlobalState::default());
}
