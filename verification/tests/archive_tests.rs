use nixek_fetcher::archive::{plan_archive, plan_entries, plan_unpack, RawEntry};
use nixek_fetcher::extract::EntryKind;
use nixek_fetcher::errors::FetchError;
use nixek_fetcher::extract::Action;

fn raw_header(name: &[u8], entry_type: tar::EntryType, size: u64) -> tar::Header {
    let mut header = tar::Header::new_gnu();
    assert!(name.len() <= 100);
    header.as_mut_bytes()[0..name.len()].copy_from_slice(name);
    header.set_entry_type(entry_type);
    header.set_size(size);
    header.set_mode(0o644);
    header.set_mtime(1);
    header.set_cksum();
    header
}

fn archive_bytes(entries: &[(&[u8], tar::EntryType, &[u8])]) -> Vec<u8> {
    let mut builder = tar::Builder::new(Vec::new());
    for (name, entry_type, data) in entries {
        let header = raw_header(name, *entry_type, data.len() as u64);
        builder.append(&header, *data).unwrap();
    }
    builder.into_inner().unwrap()
}

fn gzip_bytes(data: &[u8]) -> Vec<u8> {
    let mut encoder = flate2::write::GzEncoder::new(Vec::new(), flate2::Compression::default());
    std::io::Write::write_all(&mut encoder, data).unwrap();
    encoder.finish().unwrap()
}

fn rel(segments: &[&[u8]]) -> Vec<Vec<u8>> {
    segments.iter().map(|s| s.to_vec()).collect()
}

#[test]
fn strips_the_top_directory_and_places_the_rest() {
    let bytes = archive_bytes(&[
        (b"pkg-1.0/README.md", tar::EntryType::Regular, b"hello"),
        (b"pkg-1.0/src/main.x", tar::EntryType::Regular, b"fn main"),
    ]);
    let plan = plan_archive(&bytes, 1).unwrap();
    assert_eq!(
        plan.actions,
        vec![
            Action::WriteNow(rel(&[b"README.md"])),
            Action::WriteNow(rel(&[b"src", b"main.x"])),
        ]
    );
    assert!(plan.deferred.is_empty());
}

#[test]
fn an_archive_of_only_the_stripped_directory_is_empty() {
    let bytes = archive_bytes(&[(b"pkg-1.0/", tar::EntryType::Directory, b"")]);
    let plan = plan_archive(&bytes, 1).unwrap();
    assert_eq!(plan.actions, vec![Action::Skip]);
    assert!(plan.deferred.is_empty());
}

#[test]
fn traversal_entries_are_skipped() {
    let bytes = archive_bytes(&[
        (b"pkg-1.0/../../escape.txt", tar::EntryType::Regular, b"owned"),
        (b"pkg-1.0/safe.txt", tar::EntryType::Regular, b"fine"),
    ]);
    let plan = plan_archive(&bytes, 1).unwrap();
    assert_eq!(
        plan.actions,
        vec![Action::Skip, Action::WriteNow(rel(&[b"safe.txt"]))]
    );
    for action in &plan.actions {
        if let Action::WriteNow(rel_path) | Action::PrepareDirectory(rel_path) = action {
            for segment in rel_path {
                assert_ne!(segment, b"..");
                assert!(!segment.is_empty());
            }
        }
    }
}

#[test]
fn directory_entries_defer_their_metadata_in_order() {
    let bytes = archive_bytes(&[
        (b"pkg-1.0/locked/", tar::EntryType::Directory, b""),
        (b"pkg-1.0/locked/inner.txt", tar::EntryType::Regular, b"written first"),
        (b"pkg-1.0/open/", tar::EntryType::Directory, b""),
    ]);
    let plan = plan_archive(&bytes, 1).unwrap();
    assert_eq!(
        plan.actions,
        vec![
            Action::PrepareDirectory(rel(&[b"locked"])),
            Action::WriteNow(rel(&[b"locked", b"inner.txt"])),
            Action::PrepareDirectory(rel(&[b"open"])),
        ]
    );
    assert_eq!(plan.deferred, vec![rel(&[b"locked"]), rel(&[b"open"])]);
}

#[test]
fn a_gzipped_archive_plans_like_its_plain_equivalent() {
    let plain = archive_bytes(&[
        (b"pkg-1.0/README.md", tar::EntryType::Regular, b"hello"),
        (b"pkg-1.0/src/", tar::EntryType::Directory, b""),
        (b"pkg-1.0/src/main.x", tar::EntryType::Regular, b"fn main"),
    ]);
    let compressed = gzip_bytes(&plain);
    let from_plain = plan_unpack("", plain, 1).unwrap();
    let from_gzip = plan_unpack("application/gzip", compressed, 1).unwrap();
    assert_eq!(from_plain, from_gzip);
}

#[test]
fn planning_is_deterministic() {
    let bytes = archive_bytes(&[
        (b"pkg-1.0/a", tar::EntryType::Regular, b"a"),
        (b"pkg-1.0/d/", tar::EntryType::Directory, b""),
    ]);
    assert_eq!(plan_archive(&bytes, 1).unwrap(), plan_archive(&bytes, 1).unwrap());
}

#[test]
fn planning_a_listing_decides_every_entry_in_order() {
    let entries = vec![
        RawEntry { path: b"pkg-1.0/".to_vec(), kind: EntryKind::Directory },
        RawEntry { path: b"pkg-1.0/doc/".to_vec(), kind: EntryKind::Directory },
        RawEntry { path: b"pkg-1.0/doc/a.md".to_vec(), kind: EntryKind::RegularFile },
        RawEntry { path: b"pkg-1.0/../oops".to_vec(), kind: EntryKind::RegularFile },
    ];
    let plan = plan_entries(&entries, 1);
    assert_eq!(
        plan.actions,
        vec![
            Action::Skip,
            Action::PrepareDirectory(rel(&[b"doc"])),
            Action::WriteNow(rel(&[b"doc", b"a.md"])),
            Action::Skip,
        ]
    );
    assert_eq!(plan.deferred, vec![rel(&[b"doc"])]);
}

#[test]
fn a_malformed_archive_is_fatal() {
    let garbage = vec![1u8; 512];
    let r = plan_archive(&garbage, 1);
    assert!(matches!(r, Err(FetchError::ExtractionFailed(_))));
}

#[test]
fn an_unsupported_declaration_fails_before_parsing() {
    let r = plan_unpack("application/zip", b"anything".to_vec(), 1);
    assert_eq!(r, Err(FetchError::UnsupportedFormat("application/zip".to_string())));
}

#[test]
fn other_entry_types_are_placed_immediately() {
    let mut header = raw_header(b"pkg-1.0/link", tar::EntryType::Symlink, 0);
    header.set_link_name("target").unwrap();
    header.set_cksum();
    let mut builder = tar::Builder::new(Vec::new());
    builder.append(&header, &b""[..]).unwrap();
    let bytes = builder.into_inner().unwrap();
    let plan = plan_archive(&bytes, 1).unwrap();
    assert_eq!(plan.actions, vec![Action::WriteNow(rel(&[b"link"]))]);
}
