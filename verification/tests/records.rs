use dirsum::record::{build_record, extract, kind_label, DirSumError, EntryKind, RawMetadata};
use dirsum::units::SizeUnit;

fn meta(kind: EntryKind, size: u64) -> RawMetadata {
    RawMetadata { kind, size_bytes: size, created_secs: Some(0), modified_secs: Some(0) }
}

#[test]
fn kind_labels() {
    assert_eq!(kind_label(EntryKind::File), "File");
    assert_eq!(kind_label(EntryKind::Directory), "Directory");
}

#[test]
fn build_record_pins_every_field() {
    let r = build_record(
        "a/b",
        EntryKind::File,
        2048,
        SizeUnit::Kilobytes,
        "c".to_string(),
        "m".to_string(),
    );
    assert_eq!(r.filename, "a/b");
    assert_eq!(r.file_type, "File");
    assert_eq!(r.size, "2.00 KB");
    assert_eq!(r.creation_time, "c");
    assert_eq!(r.modified_time, "m");
}

#[test]
fn extract_resolves_timestamps() {
    let m = meta(EntryKind::Directory, 4096);
    let r = extract("d", &m, SizeUnit::Bytes).unwrap();
    assert_eq!(r.filename, "d");
    assert_eq!(r.file_type, "Directory");
    assert_eq!(r.size, "4096 B");
    // The instant is rendered in the machine's local timezone; the epoch
    // falls in 1969 or 1970 everywhere.
    assert!(r.creation_time.starts_with("1969") || r.creation_time.starts_with("1970"));
    assert!(!r.creation_time.is_empty() && !r.creation_time.contains('\n'));
    assert!(!r.modified_time.is_empty() && !r.modified_time.contains('\n'));
}

#[test]
fn extract_fails_without_creation_time() {
    let mut m = meta(EntryKind::File, 1);
    m.created_secs = None;
    assert!(matches!(extract("x", &m, SizeUnit::Bytes), Err(DirSumError::TimestampUnavailable)));
}

#[test]
fn extract_fails_without_modification_time() {
    let mut m = meta(EntryKind::File, 1);
    m.modified_secs = None;
    assert!(matches!(extract("x", &m, SizeUnit::Bytes), Err(DirSumError::TimestampUnavailable)));
}

#[test]
fn error_messages() {
    assert_eq!(DirSumError::DirectoryUnreadable.message(), "directory is missing or unreadable");
    assert_eq!(DirSumError::MetadataUnavailable.message(), "metadata unavailable for entry");
    assert_eq!(DirSumError::TimestampUnavailable.message(), "timestamp unavailable for entry");
}
