//! Deterministic rendering of attribute records as an aligned text table:
//! one header row, one rule, one row per record, each column as wide as its
//! widest cell, cells padded with one space on either side of the `|`
//! separators. Rendering is a pure function of the record sequence.
use vstd::prelude::*;

use crate::record::FileAttributeRecord;
use crate::text::{join_with, split_on, lemma_join_push, lemma_join_free, lemma_split_of_join};

verus! {

/// The header cells, in column order.
pub open spec fn spec_header() -> Seq<Seq<char>> {
    seq![
        seq!['f', 'i', 'l', 'e', 'n', 'a', 'm', 'e'],
        seq!['f', 'i', 'l', 'e', '_', 't', 'y', 'p', 'e'],
        seq!['s', 'i', 'z', 'e'],
        seq!['c', 'r', 'e', 'a', 't', 'i', 'o', 'n', '_', 't', 'i', 'm', 'e'],
        seq!['m', 'o', 'd', 'i', 'f', 'i', 'e', 'd', '_', 't', 'i', 'm', 'e'],
    ]
}

/// A record's cells, in column order.
pub open spec fn spec_row(r: FileAttributeRecord) -> Seq<Seq<char>> {
    seq![r.filename@, r.file_type@, r.size@, r.creation_time@, r.modified_time@]
}

/// The cell rows of a record sequence.
pub open spec fn spec_rows(records: Seq<FileAttributeRecord>) -> Seq<Seq<Seq<char>>> {
    records.map_values(|r: FileAttributeRecord| spec_row(r))
}

/// The width of column `j`: the widest of the header cell and every row's
/// cell in that column.
pub open spec fn spec_col_width(rows: Seq<Seq<Seq<char>>>, j: int) -> nat
    decreases rows.len(),
{
    if rows.len() == 0 {
        spec_header()[j].len()
    } else {
        let rest = spec_col_width(rows.drop_last(), j);
        if rows.last()[j].len() > rest {
            rows.last()[j].len()
        } else {
            rest
        }
    }
}

/// All five column widths.
pub open spec fn spec_widths(rows: Seq<Seq<Seq<char>>>) -> Seq<nat> {
    Seq::new(5, |j: int| spec_col_width(rows, j))
}

pub open spec fn spec_spaces(n: nat) -> Seq<char>
    decreases n,
{
    if n == 0 {
        Seq::<char>::empty()
    } else {
        spec_spaces((n - 1) as nat).push(' ')
    }
}

pub open spec fn spec_dashes(n: nat) -> Seq<char>
    decreases n,
{
    if n == 0 {
        Seq::<char>::empty()
    } else {
        spec_dashes((n - 1) as nat).push('-')
    }
}

/// One rendered cell: a space, the text, padding to the column width, a space.
pub open spec fn spec_cell(s: Seq<char>, w: nat) -> Seq<char> {
    let pad = if s.len() <= w {
        (w - s.len()) as nat
    } else {
        0
    };
    seq![' '] + s + spec_spaces(pad) + seq![' ']
}

/// One rendered line of five cells.
pub open spec fn spec_line(row: Seq<Seq<char>>, w: Seq<nat>) -> Seq<char> {
    join_with(Seq::new(5, |j: int| spec_cell(row[j], w[j])), '|')
}

/// The rule under the header: dashes as wide as each padded column.
pub open spec fn spec_rule(w: Seq<nat>) -> Seq<char> {
    join_with(Seq::new(5, |j: int| spec_dashes((w[j] + 2) as nat)), '+')
}

/// Every line of the table, in order: header, rule, one line per row.
pub open spec fn spec_table_lines(rows: Seq<Seq<Seq<char>>>) -> Seq<Seq<char>> {
    seq![spec_line(spec_header(), spec_widths(rows)), spec_rule(spec_widths(rows))]
        + rows.map_values(|row: Seq<Seq<char>>| spec_line(row, spec_widths(rows)))
}

/// The whole table: its lines joined with newlines.
pub open spec fn spec_table(rows: Seq<Seq<Seq<char>>>) -> Seq<char> {
    join_with(spec_table_lines(rows), '\n')
}

/// No cell is wider than its column.
pub proof fn lemma_col_width_bound(rows: Seq<Seq<Seq<char>>>, i: int, j: int)
    requires
        0 <= i < rows.len(),
    ensures
        rows[i][j].len() <= spec_col_width(rows, j),
    decreases rows.len(),
{
    if i < rows.len() - 1 {
        lemma_col_width_bound(rows.drop_last(), i, j);
        assert(rows.drop_last()[i] == rows[i]);
    }
}

/// The header cell fits its column too.
pub proof fn lemma_col_width_header(rows: Seq<Seq<Seq<char>>>, j: int)
    ensures
        spec_header()[j].len() <= spec_col_width(rows, j),
    decreases rows.len(),
{
    if rows.len() > 0 {
        lemma_col_width_header(rows.drop_last(), j);
    }
}

proof fn lemma_spaces_free(n: nat, c: char)
    requires
        c != ' ',
    ensures
        forall|k: int| 0 <= k < spec_spaces(n).len() ==> spec_spaces(n)[k] != c,
    decreases n,
{
    if n > 0 {
        lemma_spaces_free((n - 1) as nat, c);
        assert forall|k: int| 0 <= k < spec_spaces(n).len() implies spec_spaces(n)[k] != c by {
            if k < spec_spaces(n).len() - 1 {
                assert(spec_spaces(n)[k] == spec_spaces((n - 1) as nat)[k]);
            }
        }
    }
}

proof fn lemma_dashes_free(n: nat, c: char)
    requires
        c != '-',
    ensures
        forall|k: int| 0 <= k < spec_dashes(n).len() ==> spec_dashes(n)[k] != c,
    decreases n,
{
    if n > 0 {
        lemma_dashes_free((n - 1) as nat, c);
        assert forall|k: int| 0 <= k < spec_dashes(n).len() implies spec_dashes(n)[k] != c by {
            if k < spec_dashes(n).len() - 1 {
                assert(spec_dashes(n)[k] == spec_dashes((n - 1) as nat)[k]);
            }
        }
    }
}

/// Every table line is free of newlines when every cell is.
pub proof fn lemma_lines_free_of_newline(rows: Seq<Seq<Seq<char>>>)
    requires
        forall|i: int| 0 <= i < rows.len() ==> (#[trigger] rows[i]).len() == 5,
        forall|i: int, j: int|
            0 <= i < rows.len() && 0 <= j < 5 ==> !(#[trigger] rows[i][j]).contains('\n'),
    ensures
        forall|i: int|
            0 <= i < spec_table_lines(rows).len() ==> !(#[trigger] spec_table_lines(
                rows,
            )[i]).contains('\n'),
{
    let w = spec_widths(rows);
    let lines = spec_table_lines(rows);
    assert forall|i: int| 0 <= i < lines.len() implies !(#[trigger] lines[i]).contains('\n') by {
        if i == 0 {
            lemma_line_free_of_newline(spec_header(), w);
        } else if i == 1 {
            lemma_rule_free_of_newline(w);
            assert(lines[1] == spec_rule(w));
        } else {
            assert(lines[i] == spec_line(rows[i - 2], w));
            assert(forall|j: int| 0 <= j < 5 ==> !(#[trigger] rows[i - 2][j]).contains('\n'));
            lemma_line_free_of_newline(rows[i - 2], w);
        }
    }
}

proof fn lemma_line_free_of_newline(row: Seq<Seq<char>>, w: Seq<nat>)
    requires
        forall|j: int| 0 <= j < 5 ==> !(#[trigger] row[j]).contains('\n'),
        w.len() == 5,
    ensures
        !spec_line(row, w).contains('\n'),
{
    let cells = Seq::new(5, |j: int| spec_cell(row[j], w[j]));
    assert forall|i: int, k: int|
        0 <= i < cells.len() && 0 <= k < cells[i].len() implies #[trigger] cells[i][k] != '\n' by {
        let pad = if row[i].len() <= w[i] {
            (w[i] - row[i].len()) as nat
        } else {
            0
        };
        lemma_spaces_free(pad, '\n');
        assert(cells[i] == seq![' '] + row[i] + spec_spaces(pad) + seq![' ']);
        if 1 <= k < 1 + row[i].len() {
            assert(cells[i][k] == row[i][k - 1]);
            assert(!row[i].contains('\n'));
        }
    }
    lemma_join_free(cells, '|', '\n');
    if spec_line(row, w).contains('\n') {
        let k = choose|k: int|
            0 <= k < spec_line(row, w).len() && spec_line(row, w)[k] == '\n';
        assert(join_with(cells, '|')[k] != '\n');
    }
}

proof fn lemma_rule_free_of_newline(w: Seq<nat>)
    requires
        w.len() == 5,
    ensures
        !spec_rule(w).contains('\n'),
{
    let cells = Seq::new(5, |j: int| spec_dashes((w[j] + 2) as nat));
    assert forall|i: int, k: int|
        0 <= i < cells.len() && 0 <= k < cells[i].len() implies #[trigger] cells[i][k] != '\n' by {
        lemma_dashes_free((w[i] + 2) as nat, '\n');
    }
    lemma_join_free(cells, '+', '\n');
    if spec_rule(w).contains('\n') {
        let k = choose|k: int| 0 <= k < spec_rule(w).len() && spec_rule(w)[k] == '\n';
        assert(join_with(cells, '+')[k] != '\n');
    }
}

/// The rendered table holds one line for the header, one for the rule, and
/// exactly one line per record: splitting it on newlines shows the summary
/// count and the rendered row count agree.
pub proof fn lemma_table_line_count(rows: Seq<Seq<Seq<char>>>)
    requires
        forall|i: int| 0 <= i < rows.len() ==> (#[trigger] rows[i]).len() == 5,
        forall|i: int, j: int|
            0 <= i < rows.len() && 0 <= j < 5 ==> !(#[trigger] rows[i][j]).contains('\n'),
    ensures
        split_on(spec_table(rows), '\n').len() == rows.len() + 2,
{
    lemma_lines_free_of_newline(rows);
    lemma_split_of_join(spec_table_lines(rows), '\n');
}

fn header_cells() -> (r: Vec<String>)
    ensures
        r.deep_view() == spec_header(),
{
    proof {
        reveal_strlit("filename");
        reveal_strlit("file_type");
        reveal_strlit("size");
        reveal_strlit("creation_time");
        reveal_strlit("modified_time");
    }
    let mut r: Vec<String> = Vec::new();
    r.push(String::from_str("filename"));
    r.push(String::from_str("file_type"));
    r.push(String::from_str("size"));
    r.push(String::from_str("creation_time"));
    r.push(String::from_str("modified_time"));
    proof {
        assert(r.deep_view() =~~= spec_header());
    }
    r
}

/// Appends `n` spaces.
fn push_spaces(out: &mut String, n: usize)
    ensures
        final(out)@ == old(out)@ + spec_spaces(n as nat),
{
    proof {
        reveal_strlit(" ");
    }
    let mut i: usize = 0;
    proof {
        assert(old(out)@ + spec_spaces(0) =~= old(out)@);
    }
    while i < n
        invariant
            i <= n,
            out@ == old(out)@ + spec_spaces(i as nat),
        decreases n - i,
    {
        out.append(" ");
        proof {
            reveal_strlit(" ");
            assert(" "@ =~= seq![' ']);
            assert(old(out)@ + spec_spaces((i + 1) as nat) =~= (old(out)@ + spec_spaces(i as nat))
                + seq![' ']);
        }
        i += 1;
    }
}

/// Appends `n` dashes.
fn push_dashes(out: &mut String, n: usize)
    ensures
        final(out)@ == old(out)@ + spec_dashes(n as nat),
{
    proof {
        reveal_strlit("-");
    }
    let mut i: usize = 0;
    proof {
        assert(old(out)@ + spec_dashes(0) =~= old(out)@);
    }
    while i < n
        invariant
            i <= n,
            out@ == old(out)@ + spec_dashes(i as nat),
        decreases n - i,
    {
        out.append("-");
        proof {
            reveal_strlit("-");
            assert("-"@ =~= seq!['-']);
            assert(old(out)@ + spec_dashes((i + 1) as nat) =~= (old(out)@ + spec_dashes(i as nat))
                + seq!['-']);
        }
        i += 1;
    }
}

/// Appends one rendered line of the five cells of `row`.
fn push_line(out: &mut String, row: &Vec<String>, w: &Vec<usize>)
    requires
        row.deep_view().len() == 5,
        w@.len() == 5,
        forall|j: int| 0 <= j < 5 ==> (#[trigger] row.deep_view()[j]).len() <= w@[j],
    ensures
        final(out)@ == old(out)@ + spec_line(
            row.deep_view(),
            w@.map_values(|x: usize| x as nat),
        ),
{
    proof {
        reveal_strlit("|");
        reveal_strlit(" ");
    }
    let ghost wn = w@.map_values(|x: usize| x as nat);
    let ghost cells = Seq::new(5, |j: int| spec_cell(row.deep_view()[j], wn[j]));
    let mut j: usize = 0;
    while j < 5
        invariant
            j <= 5,
            row.deep_view().len() == 5,
            w@.len() == 5,
            forall|k: int| 0 <= k < 5 ==> (#[trigger] row.deep_view()[k]).len() <= w@[k],
            wn == w@.map_values(|x: usize| x as nat),
            cells == Seq::new(5, |k: int| spec_cell(row.deep_view()[k], wn[k])),
            j == 0 ==> out@ == old(out)@,
            j >= 1 ==> out@ == old(out)@ + join_with(cells.take(j as int), '|'),
        decreases 5 - j,
    {
        if j > 0 {
            out.append("|");
        }
        out.append(" ");
        let cell = &row[j];
        out.append(cell.as_str());
        let len = cell.as_str().unicode_len();
        proof {
            assert(row.deep_view()[j as int] == row@[j as int]@);
        }
        push_spaces(out, w[j] - len);
        out.append(" ");
        proof {
            reveal_strlit(" ");
            reveal_strlit("|");
            assert(" "@ =~= seq![' ']);
            assert("|"@ =~= seq!['|']);
            let rowj = row.deep_view()[j as int];
            let pad = if rowj.len() <= wn[j as int] {
                (wn[j as int] - rowj.len()) as nat
            } else {
                0
            };
            assert(pad == (w@[j as int] - len) as nat);
            if j == 0 {
                assert(cells.take(1) =~~= seq![cells[0]]);
                assert(out@ =~= old(out)@ + join_with(cells.take(1), '|'));
            } else {
                lemma_join_push(cells.take(j as int), cells[j as int], '|');
                assert(cells.take(j as int).push(cells[j as int]) =~~= cells.take(j as int + 1));
                assert(out@ =~= old(out)@ + join_with(cells.take(j as int + 1), '|'));
            }
        }
        j += 1;
    }
    proof {
        assert(cells.take(5) =~~= cells);
    }
}

/// Appends the rule line.
fn push_rule(out: &mut String, w: &Vec<usize>)
    requires
        w@.len() == 5,
    ensures
        final(out)@ == old(out)@ + spec_rule(w@.map_values(|x: usize| x as nat)),
{
    proof {
        reveal_strlit("+");
    }
    let ghost wn = w@.map_values(|x: usize| x as nat);
    let ghost cells = Seq::new(5, |j: int| spec_dashes((wn[j] + 2) as nat));
    let mut j: usize = 0;
    while j < 5
        invariant
            j <= 5,
            w@.len() == 5,
            wn == w@.map_values(|x: usize| x as nat),
            cells == Seq::new(5, |k: int| spec_dashes((wn[k] + 2) as nat)),
            j == 0 ==> out@ == old(out)@,
            j >= 1 ==> out@ == old(out)@ + join_with(cells.take(j as int), '+'),
        decreases 5 - j,
    {
        if j > 0 {
            out.append("+");
        }
        push_dashes(out, w[j]);
        push_dashes(out, 2);
        proof {
            reveal_strlit("+");
            assert("+"@ =~= seq!['+']);
            lemma_dashes_add(wn[j as int], 2);
            if j == 0 {
                assert(cells.take(1) =~~= seq![cells[0]]);
                assert(out@ =~= old(out)@ + join_with(cells.take(1), '+'));
            } else {
                lemma_join_push(cells.take(j as int), cells[j as int], '+');
                assert(cells.take(j as int).push(cells[j as int]) =~~= cells.take(j as int + 1));
                assert(out@ =~= old(out)@ + join_with(cells.take(j as int + 1), '+'));
            }
        }
        j += 1;
    }
    proof {
        assert(cells.take(5) =~~= cells);
    }
}

proof fn lemma_dashes_add(a: nat, b: nat)
    ensures
        spec_dashes(a + b) == spec_dashes(a) + spec_dashes(b),
    decreases b,
{
    if b == 0 {
        assert(spec_dashes(a + 0) =~= spec_dashes(a) + spec_dashes(0));
    } else {
        lemma_dashes_add(a, (b - 1) as nat);
        assert(spec_dashes(a + b) =~= spec_dashes(a) + spec_dashes(b));
    }
}

/// Renders the records as the aligned table, header and rule included. A
/// pure function of the record sequence: the same records give the same
/// text.
pub fn render_table(records: &Vec<FileAttributeRecord>) -> (r: String)
    ensures
        r@ == spec_table(spec_rows(records@)),
{
    let ghost rv = spec_rows(records@);
    let mut rows: Vec<Vec<String>> = Vec::new();
    let mut i: usize = 0;
    proof {
        assert(rows.deep_view() =~~= spec_rows(records@.take(0)));
    }
    while i < records.len()
        invariant
            i <= records.len(),
            rv == spec_rows(records@),
            rows.deep_view() =~~= spec_rows(records@.take(i as int)),
        decreases records.len() - i,
    {
        let rec = &records[i];
        let mut row: Vec<String> = Vec::new();
        row.push(rec.filename.clone());
        row.push(rec.file_type.clone());
        row.push(rec.size.clone());
        row.push(rec.creation_time.clone());
        row.push(rec.modified_time.clone());
        let ghost old_rows = rows.deep_view();
        rows.push(row);
        proof {
            assert(rows.deep_view() =~~= old_rows.push(spec_row(records@[i as int])));
            assert(spec_rows(records@.take(i as int + 1)) =~~= spec_rows(
                records@.take(i as int),
            ).push(spec_row(records@[i as int])));
        }
        i += 1;
    }
    proof {
        assert(records@.take(records@.len() as int) =~= records@);
        assert(rows.deep_view() =~~= rv);
    }

    let hdr = header_cells();
    proof {
        assert(hdr.deep_view().len() == hdr@.len());
        assert(hdr@.len() == 5);
    }
    let mut w0: usize = hdr[0].as_str().unicode_len();
    let mut w1: usize = hdr[1].as_str().unicode_len();
    let mut w2: usize = hdr[2].as_str().unicode_len();
    let mut w3: usize = hdr[3].as_str().unicode_len();
    let mut w4: usize = hdr[4].as_str().unicode_len();
    proof {
        assert(hdr.deep_view()[0] == hdr@[0]@);
        assert(hdr.deep_view()[1] == hdr@[1]@);
        assert(hdr.deep_view()[2] == hdr@[2]@);
        assert(hdr.deep_view()[3] == hdr@[3]@);
        assert(hdr.deep_view()[4] == hdr@[4]@);
        assert(rv.take(0) =~~= Seq::<Seq<Seq<char>>>::empty());
    }
    let mut k: usize = 0;
    while k < rows.len()
        invariant
            k <= rows.len(),
            rows.deep_view() == rv,
            rv.len() == rows@.len(),
            forall|i2: int| 0 <= i2 < rv.len() ==> (#[trigger] rv[i2]).len() == 5,
            w0 == spec_col_width(rv.take(k as int), 0),
            w1 == spec_col_width(rv.take(k as int), 1),
            w2 == spec_col_width(rv.take(k as int), 2),
            w3 == spec_col_width(rv.take(k as int), 3),
            w4 == spec_col_width(rv.take(k as int), 4),
        decreases rows.len() - k,
    {
        proof {
            assert(rv.take(k as int + 1).drop_last() =~~= rv.take(k as int));
            assert(rv.take(k as int + 1).last() == rv[k as int]);
            assert(rows.deep_view()[k as int] == rv[k as int]);
        }
        let row = &rows[k];
        proof {
            assert(row.deep_view() == rv[k as int]);
            assert(row.deep_view().len() == row@.len());
        }
        let l0 = row[0].as_str().unicode_len();
        let l1 = row[1].as_str().unicode_len();
        let l2 = row[2].as_str().unicode_len();
        let l3 = row[3].as_str().unicode_len();
        let l4 = row[4].as_str().unicode_len();
        proof {
            assert(row.deep_view()[0] == row@[0]@);
            assert(row.deep_view()[1] == row@[1]@);
            assert(row.deep_view()[2] == row@[2]@);
            assert(row.deep_view()[3] == row@[3]@);
            assert(row.deep_view()[4] == row@[4]@);
        }
        if l0 > w0 {
            w0 = l0;
        }
        if l1 > w1 {
            w1 = l1;
        }
        if l2 > w2 {
            w2 = l2;
        }
        if l3 > w3 {
            w3 = l3;
        }
        if l4 > w4 {
            w4 = l4;
        }
        k += 1;
    }
    proof {
        assert(rv.take(rv.len() as int) =~~= rv);
    }
    let mut w: Vec<usize> = Vec::new();
    w.push(w0);
    w.push(w1);
    w.push(w2);
    w.push(w3);
    w.push(w4);
    proof {
        assert(w@ =~= seq![w0, w1, w2, w3, w4]);
        assert(w@.map_values(|x: usize| x as nat) =~= spec_widths(rv));
    }

    let lines = Ghost(spec_table_lines(rv));
    let mut out = String::new();
    proof {
        assert forall|j: int| 0 <= j < 5 implies (#[trigger] hdr.deep_view()[j]).len()
            <= w@[j] by {
            lemma_col_width_header(rv, j);
            assert(w@.map_values(|x: usize| x as nat)[j] == w@[j] as nat);
            assert(spec_widths(rv)[j] == spec_col_width(rv, j));
        }
    }
    push_line(&mut out, &hdr, &w);
    proof {
        assert(lines@[0] == spec_line(spec_header(), spec_widths(rv)));
        assert(out@ == Seq::<char>::empty() + lines@[0]);
        assert(out@ =~= lines@[0]);
        reveal_strlit("\n");
        assert("\n"@ =~= seq!['\n']);
    }
    out.append("\n");
    push_rule(&mut out, &w);
    proof {
        assert(lines@[1] == spec_rule(spec_widths(rv)));
        reveal_with_fuel(join_with, 3);
        assert(lines@.take(2).drop_last() =~~= seq![lines@[0]]);
        assert(join_with(seq![lines@[0]], '\n') == lines@[0]);
        assert(join_with(lines@.take(2), '\n') =~= lines@[0] + seq!['\n'] + lines@[1]);
        assert(out@ =~= join_with(lines@.take(2), '\n'));
    }
    let mut t: usize = 0;
    while t < rows.len()
        invariant
            t <= rows.len(),
            rows.deep_view() == rv,
            rv.len() == rows@.len(),
            forall|i2: int| 0 <= i2 < rv.len() ==> (#[trigger] rv[i2]).len() == 5,
            w@.len() == 5,
            w@.map_values(|x: usize| x as nat) == spec_widths(rv),
            lines@ == spec_table_lines(rv),
            out@ == join_with(lines@.take(2 + t as int), '\n'),
        decreases rows.len() - t,
    {
        proof {
            reveal_strlit("\n");
            assert("\n"@ =~= seq!['\n']);
        }
        out.append("\n");
        let row = &rows[t];
        proof {
            assert(rows.deep_view()[t as int] == rv[t as int]);
            assert(row.deep_view() == rv[t as int]);
            assert forall|j: int| 0 <= j < 5 implies (#[trigger] row.deep_view()[j]).len()
                <= w@[j] by {
                lemma_col_width_bound(rv, t as int, j);
                assert(w@.map_values(|x: usize| x as nat)[j] == w@[j] as nat);
                assert(spec_widths(rv)[j] == spec_col_width(rv, j));
            }
        }
        push_line(&mut out, row, &w);
        proof {
            lemma_join_push(lines@.take(2 + t as int), lines@[2 + t as int], '\n');
            assert(lines@.take(2 + t as int).push(lines@[2 + t as int]) =~~= lines@.take(
                2 + t as int + 1,
            ));
            assert(lines@[2 + t as int] == spec_line(rv[t as int], spec_widths(rv)));
            assert(out@ =~= join_with(lines@.take(2 + t as int + 1), '\n'));
        }
        t += 1;
    }
    proof {
        assert(lines@.take(lines@.len() as int) =~~= lines@);
        assert(lines@.len() == 2 + rv.len());
    }
    out
}

} // verus!
