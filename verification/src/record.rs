//! One directory member's display-ready attribute record, assembled from
//! the raw metadata the operating system reported.
use vstd::prelude::*;

use crate::units::{SizeUnit, spec_format_size, format_size};

verus! {

/// The kind of a directory member.
#[derive(Copy, Clone, PartialEq, Eq, Structural, Debug)]
pub enum EntryKind {
    File,
    Directory,
}

/// Raw metadata for one entry, as plain values. A timestamp is `None` when
/// the platform could not report it or it lies outside the representable
/// range.
#[derive(Clone, Debug)]
pub struct RawMetadata {
    pub kind: EntryKind,
    pub size_bytes: u64,
    pub created_secs: Option<i64>,
    pub modified_secs: Option<i64>,
}

/// Why a run stopped. Every failure aborts the whole run: a partial,
/// silently incomplete report is worse than a hard stop.
#[derive(Copy, Clone, PartialEq, Eq, Structural, Debug)]
pub enum DirSumError {
    /// The target path does not exist, is not a directory, or cannot be read.
    DirectoryUnreadable,
    /// The operating system could not report metadata for an entry.
    MetadataUnavailable,
    /// A creation or modification time could not be resolved to an instant.
    TimestampUnavailable,
}

impl DirSumError {
    pub open spec fn spec_message(self) -> Seq<char> {
        match self {
            DirSumError::DirectoryUnreadable => "directory is missing or unreadable"@,
            DirSumError::MetadataUnavailable => "metadata unavailable for entry"@,
            DirSumError::TimestampUnavailable => "timestamp unavailable for entry"@,
        }
    }

    /// A short diagnostic label for the failure.
    pub fn message(&self) -> (r: &'static str)
        ensures
            r@ == self.spec_message(),
    {
        match self {
            DirSumError::DirectoryUnreadable => "directory is missing or unreadable",
            DirSumError::MetadataUnavailable => "metadata unavailable for entry",
            DirSumError::TimestampUnavailable => "timestamp unavailable for entry",
        }
    }
}

/// The display-ready attribute tuple for one entry. Field names double as
/// the table's column headers. Immutable once built.
#[derive(Clone, Debug)]
pub struct FileAttributeRecord {
    pub filename: String,
    pub file_type: String,
    pub size: String,
    pub creation_time: String,
    pub modified_time: String,
}

/// The label shown in the `file_type` column.
pub open spec fn spec_kind_label(k: EntryKind) -> Seq<char> {
    match k {
        EntryKind::File => seq!['F', 'i', 'l', 'e'],
        EntryKind::Directory => seq!['D', 'i', 'r', 'e', 'c', 't', 'o', 'r', 'y'],
    }
}

pub fn kind_label(k: EntryKind) -> (r: &'static str)
    ensures
        r@ == spec_kind_label(k),
{
    proof {
        reveal_strlit("File");
        reveal_strlit("Directory");
    }
    let r = match k {
        EntryKind::File => "File",
        EntryKind::Directory => "Directory",
    };
    proof {
        assert(r@ =~= spec_kind_label(k));
    }
    r
}

/// Relies on chrono: `TimeZone::timestamp_opt` on `Local` maps the instant
/// `secs` seconds after the Unix epoch into the machine's local timezone,
/// and the `Display` of `DateTime<Local>` renders it as date, a space,
/// time, a space and the signed offset — one non-empty line, never a
/// newline. Which line depends on the machine's timezone, so nothing more
/// is claimed; seconds that chrono cannot place give `None`.
#[verifier::external_body]
fn local_timestamp_display(secs: i64) -> (r: Option<String>)
    ensures
        r matches Some(t) ==> t@.len() > 0 && !t@.contains('\n'),
{
    match chrono::TimeZone::timestamp_opt(&chrono::Local, secs, 0) {
        chrono::LocalResult::Single(dt) => Some(dt.to_string()),
        _ => None,
    }
}

/// A rendered timestamp cell as the run's timezone boundary hands it over:
/// one non-empty line.
pub open spec fn timestamps_clean(rec: FileAttributeRecord) -> bool {
    &&& rec.creation_time@.len() > 0
    &&& !rec.creation_time@.contains('\n')
    &&& rec.modified_time@.len() > 0
    &&& !rec.modified_time@.contains('\n')
}

/// The kind label never holds a newline.
pub proof fn lemma_kind_label_free_of_newline(k: EntryKind)
    ensures
        !spec_kind_label(k).contains('\n'),
{
    if spec_kind_label(k).contains('\n') {
        let j = choose|j: int| 0 <= j < spec_kind_label(k).len() && spec_kind_label(k)[j] == '\n';
    }
}

/// Assembles the record for one entry from fully resolved parts.
pub fn build_record(
    display_path: &str,
    kind: EntryKind,
    size_bytes: u64,
    unit: SizeUnit,
    created: String,
    modified: String,
) -> (r: FileAttributeRecord)
    ensures
        r.filename@ == display_path@,
        r.file_type@ == spec_kind_label(kind),
        r.size@ == spec_format_size(size_bytes as nat, unit),
        r.creation_time == created,
        r.modified_time == modified,
{
    FileAttributeRecord {
        filename: String::from_str(display_path),
        file_type: String::from_str(kind_label(kind)),
        size: format_size(size_bytes, unit),
        creation_time: created,
        modified_time: modified,
    }
}

/// Builds the attribute record for one entry: the size is scaled to the
/// run's unit and the timestamps are rendered in the local timezone. Fails
/// with `TimestampUnavailable` when either instant is absent, and only then
/// unless the timezone rendering itself cannot place an instant; every
/// other field of a returned record is pinned exactly.
pub fn extract(display_path: &str, meta: &RawMetadata, unit: SizeUnit) -> (r: Result<
    FileAttributeRecord,
    DirSumError,
>)
    ensures
        r is Err ==> r == Err::<FileAttributeRecord, DirSumError>(
            DirSumError::TimestampUnavailable,
        ),
        meta.created_secs is None || meta.modified_secs is None ==> r is Err,
        r matches Ok(rec) ==> {
            &&& meta.created_secs is Some
            &&& meta.modified_secs is Some
            &&& rec.filename@ == display_path@
            &&& rec.file_type@ == spec_kind_label(meta.kind)
            &&& rec.size@ == spec_format_size(meta.size_bytes as nat, unit)
            &&& timestamps_clean(rec)
        },
{
    let created_secs = match meta.created_secs {
        Some(s) => s,
        None => {
            return Err(DirSumError::TimestampUnavailable);
        },
    };
    let modified_secs = match meta.modified_secs {
        Some(s) => s,
        None => {
            return Err(DirSumError::TimestampUnavailable);
        },
    };
    let created = match local_timestamp_display(created_secs) {
        Some(t) => t,
        None => {
            return Err(DirSumError::TimestampUnavailable);
        },
    };
    let modified = match local_timestamp_display(modified_secs) {
        Some(t) => t,
        None => {
            return Err(DirSumError::TimestampUnavailable);
        },
    };
    Ok(build_record(display_path, meta.kind, meta.size_bytes, unit, created, modified))
}

} // verus!
