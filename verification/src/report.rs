//! The run's single linear pass: normalize each scanned entry's path,
//! extract its attribute record, render the table, and append the summary
//! line. Every failure aborts the whole run; no partial report is built.
use vstd::prelude::*;

use crate::path::{normalize_path, spec_normalize, lemma_normalize_free_of_newline};
use crate::record::{
    DirSumError, FileAttributeRecord, RawMetadata, extract, spec_kind_label, timestamps_clean,
    lemma_kind_label_free_of_newline,
};
use crate::table::{
    render_table, spec_row, spec_rows, spec_table, spec_table_lines, lemma_lines_free_of_newline,
};
use crate::text::{
    push_decimal, spec_decimal, split_on, join_with, lemma_join_push, lemma_split_of_join,
    lemma_decimal_free_of_newline,
};
use crate::units::{SizeUnit, spec_format_size, lemma_format_size_free_of_newline};

verus! {

/// One scanned directory member: the raw path the listing reported, and
/// the metadata read for it afterwards. `None` metadata stands for an
/// entry that could no longer be stat'ed after the listing.
pub struct ScannedEntry {
    pub path: String,
    pub meta: Option<RawMetadata>,
}

/// Has the entry everything a record needs?
pub open spec fn entry_complete(e: ScannedEntry) -> bool {
    e.meta matches Some(m) && m.created_secs is Some && m.modified_secs is Some
}

/// The cells of `row` that the library pins for `entry` under `unit`: the
/// normalized path, the kind label and the scaled size. The two timestamp
/// cells come from the machine's local timezone and are not pinned.
pub open spec fn row_matches_entry(row: Seq<Seq<char>>, e: ScannedEntry, unit: SizeUnit) -> bool {
    &&& row.len() == 5
    &&& row[0] == spec_normalize(e.path@)
    &&& e.meta matches Some(m) && row[1] == spec_kind_label(m.kind) && row[2] == spec_format_size(
        m.size_bytes as nat,
        unit,
    )
}

/// The summary line under the table.
pub open spec fn spec_total_line(count: nat) -> Seq<char> {
    "Total items: "@ + spec_decimal(count)
}

/// The whole report text: the table, a blank line, the summary line.
pub open spec fn spec_report(rows: Seq<Seq<Seq<char>>>, count: nat) -> Seq<char> {
    spec_table(rows) + seq!['\n', '\n'] + spec_total_line(count)
}

/// A finished run: the rendered text and the records behind it.
pub struct Report {
    pub text: String,
    pub records: Vec<FileAttributeRecord>,
}

/// Builds the report for a scanned listing. The pass is strict: the first
/// entry whose metadata is absent aborts with `MetadataUnavailable`, the
/// first whose timestamps cannot be resolved aborts with
/// `TimestampUnavailable`, and nothing of the table survives an abort.
pub fn summarize(entries: Vec<ScannedEntry>, unit: SizeUnit) -> (r: Result<Report, DirSumError>)
    ensures
        r matches Ok(rep) ==> {
            &&& rep.records@.len() == entries@.len()
            &&& forall|i: int|
                0 <= i < entries@.len() ==> row_matches_entry(
                    spec_row(#[trigger] rep.records@[i]),
                    entries@[i],
                    unit,
                )
            &&& forall|i: int| 0 <= i < entries@.len() ==> timestamps_clean(#[trigger] rep.records@[i])
            &&& rep.text@ == spec_report(spec_rows(rep.records@), entries@.len() as nat)
        },
        r is Ok ==> forall|i: int| 0 <= i < entries@.len() ==> entry_complete(#[trigger] entries@[i]),
        r matches Err(e) ==> e != DirSumError::DirectoryUnreadable,
        r == Err::<Report, DirSumError>(DirSumError::MetadataUnavailable) ==> exists|i: int|
            {
                &&& 0 <= i < entries@.len()
                &&& (#[trigger] entries@[i]).meta is None
                &&& forall|j: int| 0 <= j < i ==> entry_complete(#[trigger] entries@[j])
            },
        r == Err::<Report, DirSumError>(DirSumError::TimestampUnavailable) ==> exists|i: int|
            {
                &&& 0 <= i < entries@.len()
                &&& (#[trigger] entries@[i]).meta is Some
                &&& forall|j: int| 0 <= j < i ==> entry_complete(#[trigger] entries@[j])
            },
{
    let mut records: Vec<FileAttributeRecord> = Vec::new();
    let mut i: usize = 0;
    while i < entries.len()
        invariant
            i <= entries.len(),
            records@.len() == i,
            forall|k: int|
                0 <= k < i as int ==> row_matches_entry(
                    spec_row(#[trigger] records@[k]),
                    entries@[k],
                    unit,
                ),
            forall|k: int| 0 <= k < i as int ==> timestamps_clean(#[trigger] records@[k]),
            forall|k: int| 0 <= k < i as int ==> entry_complete(#[trigger] entries@[k]),
        decreases entries.len() - i,
    {
        let e = &entries[i];
        let meta = match &e.meta {
            Some(m) => m,
            None => {
                return Err(DirSumError::MetadataUnavailable);
            },
        };
        let display = normalize_path(e.path.as_str());
        let rec = match extract(display.as_str(), meta, unit) {
            Ok(rec) => rec,
            Err(err) => {
                return Err(err);
            },
        };
        records.push(rec);
        proof {
            assert(row_matches_entry(spec_row(records@[i as int]), entries@[i as int], unit));
        }
        i += 1;
    }
    let mut text = render_table(&records);
    proof {
        reveal_strlit("\n\nTotal items: ");
        reveal_strlit("Total items: ");
        assert("\n\nTotal items: "@ =~= seq!['\n', '\n'] + "Total items: "@);
    }
    text.append("\n\nTotal items: ");
    let n: u64 = entries.len() as u64;
    push_decimal(&mut text, n);
    proof {
        assert(text@ =~= spec_report(spec_rows(records@), entries@.len() as nat));
    }
    Ok(Report { text, records })
}

/// Runs the presentation for a directory listing, where `None` stands for
/// a listing that could not be read at all: only that gives
/// `DirectoryUnreadable`, and no table is built for it.
pub fn summarize_listing(listing: Option<Vec<ScannedEntry>>, unit: SizeUnit) -> (r: Result<
    Report,
    DirSumError,
>)
    ensures
        listing is None <==> r == Err::<Report, DirSumError>(DirSumError::DirectoryUnreadable),
        listing matches Some(entries) ==> {
            &&& (r matches Ok(rep) ==> {
                &&& rep.records@.len() == entries@.len()
                &&& forall|i: int|
                    0 <= i < entries@.len() ==> row_matches_entry(
                        spec_row(#[trigger] rep.records@[i]),
                        entries@[i],
                        unit,
                    )
                &&& forall|i: int|
                    0 <= i < entries@.len() ==> timestamps_clean(#[trigger] rep.records@[i])
                &&& rep.text@ == spec_report(spec_rows(rep.records@), entries@.len() as nat)
            })
            &&& (r is Ok ==> forall|i: int|
                0 <= i < entries@.len() ==> entry_complete(#[trigger] entries@[i]))
            &&& (r == Err::<Report, DirSumError>(DirSumError::MetadataUnavailable) ==> exists|
                i: int,
            |
                {
                    &&& 0 <= i < entries@.len()
                    &&& (#[trigger] entries@[i]).meta is None
                    &&& forall|j: int| 0 <= j < i ==> entry_complete(#[trigger] entries@[j])
                })
            &&& (r == Err::<Report, DirSumError>(DirSumError::TimestampUnavailable) ==> exists|
                i: int,
            |
                {
                    &&& 0 <= i < entries@.len()
                    &&& (#[trigger] entries@[i]).meta is Some
                    &&& forall|j: int| 0 <= j < i ==> entry_complete(#[trigger] entries@[j])
                })
        },
{
    match listing {
        None => Err(DirSumError::DirectoryUnreadable),
        Some(entries) => summarize(entries, unit),
    }
}

/// The run announcement that precedes the table: the target path and the
/// active unit's long name.
pub fn announcement(path: &str, unit: SizeUnit) -> (r: String)
    ensures
        r@ == seq!['\n'] + "Directory to summarize: "@ + path@ + seq!['\n'] + "Size format: "@
            + unit.spec_long_name() + seq!['\n', '\n'],
{
    proof {
        reveal_strlit("\nDirectory to summarize: ");
        reveal_strlit("Directory to summarize: ");
        reveal_strlit("\nSize format: ");
        reveal_strlit("Size format: ");
        reveal_strlit("\n\n");
        assert("\nDirectory to summarize: "@ =~= seq!['\n'] + "Directory to summarize: "@);
        assert("\nSize format: "@ =~= seq!['\n'] + "Size format: "@);
        assert("\n\n"@ =~= seq!['\n', '\n']);
    }
    let mut out = String::from_str("\nDirectory to summarize: ");
    out.append(path);
    out.append("\nSize format: ");
    out.append(unit.long_name());
    out.append("\n\n");
    proof {
        assert(out@ =~= seq!['\n'] + "Directory to summarize: "@ + path@ + seq!['\n']
            + "Size format: "@ + unit.spec_long_name() + seq!['\n', '\n']);
    }
    out
}

/// The lines of a report, split back out of its text: the table's lines,
/// a blank line, and the summary line. In particular a report over `n`
/// records has exactly `n` data lines, and the count the summary line
/// shows is that same `n`.
pub proof fn lemma_report_lines(rows: Seq<Seq<Seq<char>>>, count: nat)
    requires
        forall|i: int| 0 <= i < rows.len() ==> (#[trigger] rows[i]).len() == 5,
        forall|i: int, j: int|
            0 <= i < rows.len() && 0 <= j < 5 ==> !(#[trigger] rows[i][j]).contains('\n'),
    ensures
        split_on(spec_report(rows, count), '\n') == spec_table_lines(rows) + seq![
            Seq::<char>::empty(),
            spec_total_line(count),
        ],
        split_on(spec_report(rows, count), '\n').len() == rows.len() + 4,
        split_on(spec_report(rows, count), '\n').last() == spec_total_line(count),
{
    lemma_lines_free_of_newline(rows);
    let tl = spec_table_lines(rows);
    let e = Seq::<char>::empty();
    let total = spec_total_line(count);
    let all = tl + seq![e, total];
    lemma_join_push(tl, e, '\n');
    lemma_join_push(tl.push(e), total, '\n');
    assert(tl.push(e).push(total) =~~= all);
    assert(join_with(all, '\n') =~= spec_report(rows, count));
    assert forall|i: int| 0 <= i < all.len() implies !(#[trigger] all[i]).contains('\n') by {
        if i < tl.len() {
            assert(all[i] == tl[i]);
        } else if i == tl.len() {
            assert(all[i] == e);
            if e.contains('\n') {
                let k = choose|k: int| 0 <= k < e.len() && e[k] == '\n';
            }
        } else {
            assert(all[i] == total);
            lemma_decimal_free_of_newline(count);
            reveal_strlit("Total items: ");
            if total.contains('\n') {
                let k = choose|k: int| 0 <= k < total.len() && total[k] == '\n';
                if k < "Total items: "@.len() {
                    assert(total[k] == "Total items: "@[k]);
                } else {
                    assert(total[k] == spec_decimal(count)[k - "Total items: "@.len()]);
                }
            }
        }
    }
    lemma_split_of_join(all, '\n');
    assert(all.last() == total);
}

/// The summary count equals the number of rendered data rows, at the level
/// of the report text. Any records a successful run pins for entries whose
/// paths are free of newlines render into exactly one text line per entry
/// beside the header, the rule, the blank line and the summary line; the
/// summary line shows that same entry count. The hypotheses are exactly
/// what `summarize` ensures of a successful run.
pub proof fn lemma_summary_count_matches_rows(
    records: Seq<FileAttributeRecord>,
    entries: Seq<ScannedEntry>,
    unit: SizeUnit,
    text: Seq<char>,
)
    requires
        records.len() == entries.len(),
        forall|i: int|
            0 <= i < entries.len() ==> row_matches_entry(
                spec_row(#[trigger] records[i]),
                entries[i],
                unit,
            ),
        forall|i: int| 0 <= i < records.len() ==> timestamps_clean(#[trigger] records[i]),
        forall|i: int| 0 <= i < entries.len() ==> !(#[trigger] entries[i]).path@.contains('\n'),
        text == spec_report(spec_rows(records), records.len() as nat),
    ensures
        split_on(text, '\n').len() == records.len() + 4,
        split_on(text, '\n').last() == spec_total_line(records.len() as nat),
{
    let rows = spec_rows(records);
    assert(rows.len() == records.len());
    assert forall|i: int| 0 <= i < rows.len() implies (#[trigger] rows[i]).len() == 5 by {
        assert(rows[i] == spec_row(records[i]));
    }
    assert forall|i: int, j: int|
        0 <= i < rows.len() && 0 <= j < 5 implies !(#[trigger] rows[i][j]).contains('\n') by {
        assert(rows[i] == spec_row(records[i]));
        assert(row_matches_entry(spec_row(records[i]), entries[i], unit));
        if j == 0 {
            lemma_normalize_free_of_newline(entries[i].path@);
            assert(rows[i][0] == spec_normalize(entries[i].path@));
        } else if j == 1 {
            let m = entries[i].meta->Some_0;
            lemma_kind_label_free_of_newline(m.kind);
            assert(rows[i][1] == spec_kind_label(m.kind));
        } else if j == 2 {
            let m = entries[i].meta->Some_0;
            lemma_format_size_free_of_newline(m.size_bytes as nat, unit);
            assert(rows[i][2] == spec_format_size(m.size_bytes as nat, unit));
        } else {
            assert(timestamps_clean(records[i]));
        }
    }
    lemma_report_lines(rows, records.len() as nat);
}

} // verus!
