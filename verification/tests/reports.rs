use dirsum::record::{DirSumError, EntryKind, RawMetadata};
use dirsum::report::{announcement, summarize, summarize_listing, ScannedEntry};
use dirsum::units::SizeUnit;

fn entry(path: &str, kind: EntryKind, size: u64) -> ScannedEntry {
    ScannedEntry {
        path: path.to_string(),
        meta: Some(RawMetadata {
            kind,
            size_bytes: size,
            created_secs: Some(0),
            modified_secs: Some(0),
        }),
    }
}

#[test]
fn empty_listing_gives_header_only_table_and_zero_count() {
    let rep = summarize(Vec::new(), SizeUnit::Bytes).unwrap();
    assert_eq!(rep.records.len(), 0);
    assert_eq!(
        rep.text,
        " filename | file_type | size | creation_time | modified_time \n\
         ----------+-----------+------+---------------+---------------\n\
         \nTotal items: 0"
    );
}

#[test]
fn empty_readable_listing_succeeds() {
    let r = summarize_listing(Some(Vec::new()), SizeUnit::Megabytes);
    let rep = r.unwrap();
    assert_eq!(rep.records.len(), 0);
    assert!(rep.text.ends_with("Total items: 0"));
}

#[test]
fn unreadable_listing_fails_without_output() {
    let r = summarize_listing(None, SizeUnit::Bytes);
    assert!(matches!(r, Err(DirSumError::DirectoryUnreadable)));
}

#[test]
fn file_and_subdirectory_in_kilobytes() {
    let entries = vec![
        entry("d/a.bin", EntryKind::File, 2048),
        entry("d/sub", EntryKind::Directory, 4096),
    ];
    let rep = summarize(entries, SizeUnit::Kilobytes).unwrap();
    assert_eq!(rep.records.len(), 2);
    assert_eq!(rep.records[0].filename, "d/a.bin");
    assert_eq!(rep.records[0].size, "2.00 KB");
    assert_eq!(rep.records[1].file_type, "Directory");
    assert!(rep.text.contains(" 2.00 KB "));
    assert!(rep.text.ends_with("Total items: 2"));
    // Header, rule, two data rows, a blank line, the summary line.
    let lines: Vec<&str> = rep.text.split('\n').collect();
    assert_eq!(lines.len(), 6);
}

#[test]
fn summary_count_equals_rendered_rows() {
    let entries = vec![
        entry("x", EntryKind::File, 1),
        entry("y", EntryKind::File, 2),
        entry("z", EntryKind::Directory, 3),
    ];
    let rep = summarize(entries, SizeUnit::Bytes).unwrap();
    let lines: Vec<&str> = rep.text.split('\n').collect();
    // All lines between the rule and the blank line are data rows.
    let data_rows = lines.len() - 4;
    assert_eq!(data_rows, 3);
    assert_eq!(*lines.last().unwrap(), "Total items: 3");
}

#[test]
fn missing_metadata_aborts_the_run() {
    let entries = vec![
        entry("ok", EntryKind::File, 1),
        ScannedEntry { path: "gone".to_string(), meta: None },
    ];
    let r = summarize(entries, SizeUnit::Bytes);
    assert!(matches!(r, Err(DirSumError::MetadataUnavailable)));
}

#[test]
fn missing_timestamp_aborts_the_run() {
    let mut e = entry("x", EntryKind::File, 1);
    if let Some(m) = e.meta.as_mut() {
        m.created_secs = None;
    }
    let r = summarize(vec![e], SizeUnit::Bytes);
    assert!(matches!(r, Err(DirSumError::TimestampUnavailable)));
}

#[test]
fn paths_are_normalized_in_records() {
    let rep = summarize(vec![entry("d//a", EntryKind::File, 1)], SizeUnit::Bytes).unwrap();
    assert_eq!(rep.records[0].filename, "d/a");
}

#[test]
fn table_columns_align_to_widest_cell() {
    let entries = vec![
        entry("short", EntryKind::File, 1),
        entry("a-much-longer-filename", EntryKind::File, 22),
    ];
    let rep = summarize(entries, SizeUnit::Bytes).unwrap();
    let lines: Vec<&str> = rep.text.split('\n').collect();
    // Header, rule and every data row share one width.
    assert_eq!(lines[0].len(), lines[1].len());
    assert_eq!(lines[0].len(), lines[2].len());
    assert_eq!(lines[0].len(), lines[3].len());
    // The rule marks the column joints with `+` where rows hold `|`.
    let joints: Vec<usize> =
        lines[1].char_indices().filter(|(_, c)| *c == '+').map(|(i, _)| i).collect();
    for j in joints {
        assert_eq!(lines[0].as_bytes()[j], b'|');
    }
}

#[test]
fn announcement_names_path_and_unit() {
    assert_eq!(
        announcement("some/dir", SizeUnit::Kilobytes),
        "\nDirectory to summarize: some/dir\nSize format: KiloBytes\n\n"
    );
    assert_eq!(
        announcement("d", SizeUnit::Bytes),
        "\nDirectory to summarize: d\nSize format: Bytes\n\n"
    );
}
