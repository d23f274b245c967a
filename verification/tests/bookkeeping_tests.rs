use carddown::view::formatting::{format_datetime, format_datetime_opt, format_tags};
use carddown::lock::{InstanceLock, LockAction, LockEvent, LockState};
use carddown::scan::{plan_scan, ScanIndex, ScannedFile};
use carddown::time::Timestamp;

fn file(path: &str, mtime: u64) -> ScannedFile {
    ScannedFile { path: path.to_string(), mtime }
}

#[test]
fn lock_without_force() {
    let mut lock = InstanceLock::new(false);
    assert_eq!(lock.step(LockEvent::Start), LockAction::CreateIfAbsent);
    assert!(!lock.is_held());
    assert_eq!(lock.step(LockEvent::Created), LockAction::Proceed);
    assert!(lock.is_held());
    assert_eq!(lock.step(LockEvent::Created), LockAction::Nothing);
    assert!(lock.is_held());
    assert_eq!(lock.step(LockEvent::Exit), LockAction::RemoveMarker);
    assert_eq!(lock.state, LockState::Done);
    assert_eq!(lock.step(LockEvent::Exit), LockAction::Nothing);
    assert_eq!(lock.step(LockEvent::Start), LockAction::Nothing);
    assert_eq!(lock.state, LockState::Done);
}

#[test]
fn lock_is_refused_when_the_marker_is_there() {
    let mut lock = InstanceLock::new(false);
    lock.step(LockEvent::Start);
    assert_eq!(lock.step(LockEvent::AlreadyExists), LockAction::RefuseBusy);
    assert!(!lock.is_held());
    // nothing to give back
    assert_eq!(lock.step(LockEvent::Exit), LockAction::Nothing);

    let mut lock = InstanceLock::new(false);
    lock.step(LockEvent::Start);
    assert_eq!(lock.step(LockEvent::CreateFailed), LockAction::RefuseFailed);
    assert_eq!(lock.step(LockEvent::Exit), LockAction::Nothing);
}

#[test]
fn lock_with_force_clears_first() {
    let mut lock = InstanceLock::new(true);
    assert_eq!(lock.step(LockEvent::Start), LockAction::RemoveMarker);
    assert_eq!(lock.state, LockState::Clearing);
    assert_eq!(lock.step(LockEvent::Created), LockAction::Nothing);
    assert_eq!(lock.step(LockEvent::Cleared), LockAction::CreateAnyway);
    assert_eq!(lock.step(LockEvent::Created), LockAction::Proceed);
    assert!(lock.is_held());
    assert_eq!(lock.step(LockEvent::Exit), LockAction::RemoveMarker);

    let mut lock = InstanceLock::new(true);
    lock.step(LockEvent::Start);
    lock.step(LockEvent::Cleared);
    assert_eq!(lock.step(LockEvent::CreateFailed), LockAction::RefuseFailed);
    assert_eq!(lock.state, LockState::Done);
}

#[test]
fn incremental_scan_reads_what_changed() {
    let mut index = ScanIndex::from_entries(vec![file("a.md", 10), file("b.md", 20)]);
    let chosen = plan_scan(
        &mut index,
        vec![file("a.md", 10), file("b.md", 21), file("c.md", 5), file("d.md", 0)],
        false,
    );
    assert_eq!(chosen, vec!["b.md".to_string(), "c.md".to_string()]);
    assert_eq!(index.get(&"a.md".to_string()), Some(10));
    assert_eq!(index.get(&"b.md".to_string()), Some(21));
    assert_eq!(index.get(&"c.md".to_string()), Some(5));
    assert_eq!(index.get(&"d.md".to_string()), Some(0));
    assert_eq!(index.get(&"e.md".to_string()), None);
    assert_eq!(index.entries().len(), 4);

    // the same files again: nothing to read
    let chosen = plan_scan(
        &mut index,
        vec![file("a.md", 10), file("b.md", 21), file("c.md", 5), file("d.md", 0)],
        false,
    );
    assert!(chosen.is_empty());

    // a file that went back in time is not read, and its time is noted
    let chosen = plan_scan(&mut index, vec![file("b.md", 3)], false);
    assert!(chosen.is_empty());
    assert_eq!(index.get(&"b.md".to_string()), Some(3));
}

#[test]
fn full_scan_reads_all_and_refreshes_the_index() {
    let mut index = ScanIndex::from_entries(vec![file("a.md", 10)]);
    let chosen = plan_scan(&mut index, vec![file("a.md", 10), file("b.md", 7)], true);
    assert_eq!(chosen, vec!["a.md".to_string(), "b.md".to_string()]);
    assert_eq!(index.get(&"b.md".to_string()), Some(7));
    let chosen = plan_scan(&mut index, vec![file("a.md", 10), file("b.md", 7)], false);
    assert!(chosen.is_empty());
}

#[test]
fn empty_index_reads_every_file_with_a_time() {
    let mut index = ScanIndex::new();
    assert!(index.entries().is_empty());
    let chosen = plan_scan(&mut index, vec![file("a.md", 1), file("z.md", 0)], false);
    assert_eq!(chosen, vec!["a.md".to_string()]);
    index.insert("z.md".to_string(), 9);
    index.insert("z.md".to_string(), 4);
    assert_eq!(index.get(&"z.md".to_string()), Some(4));
    assert_eq!(index.entries().len(), 2);
    assert!(plan_scan(&mut index, Vec::new(), true).is_empty());
}

#[test]
fn index_keeps_the_later_of_two_entries() {
    let index = ScanIndex::from_entries(vec![file("a", 1), file("b", 2), file("a", 3)]);
    assert_eq!(index.get(&"a".to_string()), Some(3));
    assert_eq!(index.entries().len(), 2);
    // a file that is listed twice is read once
    let mut index = ScanIndex::new();
    let chosen = plan_scan(&mut index, vec![file("a", 5), file("a", 5)], false);
    assert_eq!(chosen, vec!["a".to_string()]);
}

#[test]
fn tags_are_joined_with_commas() {
    assert_eq!(format_tags(&Vec::new()), "");
    assert_eq!(format_tags(&vec!["one".to_string()]), "one");
    assert_eq!(
        format_tags(&vec!["one".to_string(), "two".to_string(), "".to_string()]),
        "one, two, "
    );
}

#[test]
fn dates_are_formatted_to_the_minute() {
    assert_eq!(format_datetime_opt(None, "Never"), "Never");
    assert_eq!(format_datetime_opt(None, ""), "");
    let text = format_datetime(Timestamp::new(1_431_648_000, 0));
    assert_eq!(text.len(), 16);
    assert!(text.starts_with("2015-05-1"));
    assert_eq!(format_datetime_opt(Some(Timestamp::new(1_431_648_000, 0)), "Never"), text);
    // no date lies that far out
    assert_eq!(format_datetime(Timestamp::new(i64::MAX, 0)), "");
}
