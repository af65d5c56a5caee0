use nixek_fetcher::extract::{Action, Coordinator, EntryKind};

fn rel(segments: &[&[u8]]) -> Vec<Vec<u8>> {
    segments.iter().map(|s| s.to_vec()).collect()
}

#[test]
fn files_are_written_immediately() {
    let mut coordinator = Coordinator::new(1);
    let a = coordinator.step(&b"pkg-1.0/README.md".to_vec(), EntryKind::RegularFile);
    assert_eq!(a, Action::WriteNow(rel(&[b"README.md"])));
    assert_eq!(coordinator.finish(), Vec::<Vec<Vec<u8>>>::new());
}

#[test]
fn directories_are_prepared_and_their_metadata_deferred() {
    let mut coordinator = Coordinator::new(1);
    let a = coordinator.step(&b"pkg-1.0/sub/".to_vec(), EntryKind::Directory);
    assert_eq!(a, Action::PrepareDirectory(rel(&[b"sub"])));
    let b = coordinator.step(&b"pkg-1.0/sub/a.txt".to_vec(), EntryKind::RegularFile);
    assert_eq!(b, Action::WriteNow(rel(&[b"sub", b"a.txt"])));
    // The directory's metadata is handed out only at the end of the pass, after
    // its children were already written.
    assert_eq!(coordinator.finish(), vec![rel(&[b"sub"])]);
}

#[test]
fn deferred_directories_keep_first_encounter_order() {
    let mut coordinator = Coordinator::new(1);
    coordinator.step(&b"p/one/".to_vec(), EntryKind::Directory);
    coordinator.step(&b"p/one/x".to_vec(), EntryKind::RegularFile);
    coordinator.step(&b"p/two/".to_vec(), EntryKind::Directory);
    assert_eq!(coordinator.finish(), vec![rel(&[b"one"]), rel(&[b"two"])]);
}

#[test]
fn skipped_entries_leave_no_trace() {
    let mut coordinator = Coordinator::new(1);
    assert_eq!(coordinator.step(&b"pkg-1.0/".to_vec(), EntryKind::Directory), Action::Skip);
    assert_eq!(
        coordinator.step(&b"pkg-1.0/../../etc/passwd".to_vec(), EntryKind::RegularFile),
        Action::Skip
    );
    assert_eq!(coordinator.step(&b"./".to_vec(), EntryKind::Directory), Action::Skip);
    assert_eq!(coordinator.finish(), Vec::<Vec<Vec<u8>>>::new());
}

#[test]
fn other_entry_kinds_follow_the_immediate_write_rule() {
    let mut coordinator = Coordinator::new(1);
    let a = coordinator.step(&b"pkg-1.0/link".to_vec(), EntryKind::Other);
    assert_eq!(a, Action::WriteNow(rel(&[b"link"])));
}
