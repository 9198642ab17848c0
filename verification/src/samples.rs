//! The file of samples that an endurance test leaves: one line for each time at which memory, open
//! files and counters were looked at.

use vstd::prelude::*;

use crate::soak;
use crate::soak::{counter_cell, Snapshot, SnapshotView, COUNTER_SOURCES, MONITOR_SOURCES};
use crate::tally::Tally;
use crate::text;
use crate::text::{
    chars_of, decimal_string, is_decimal_fraction, join_texts, push_text, same, split_at_each,
    split_lines,
};

verus! {

// ---------------------------------------------------------------------
// Writing
// ---------------------------------------------------------------------

/// What is known of a process.
pub open spec fn known(counts: Map<u64, u64>, pid: u32) -> Option<u64> {
    if counts.contains_key(pid as u64) {
        Some(counts[pid as u64])
    } else {
        None
    }
}

/// How what is known of each process is written.
pub open spec fn process_cells(counts: Map<u64, u64>, pids: Seq<u32>) -> Seq<Seq<char>> {
    pids.map_values(|pid: u32| soak::cell(known(counts, pid)))
}

/// How the counters that `sources` name are written.
pub open spec fn counter_cells(sources: Seq<&'static str>, status: SnapshotView) -> Seq<Seq<char>> {
    sources.map_values(|s: &'static str| soak::cell(soak::counter(s@, status)))
}

/// What was looked at at one time.
pub struct Sample<'a> {
    /// The time, as it is written.
    pub time: &'a str,
    /// The time since the test began, as it is written.
    pub elapsed: &'a str,
    /// Which run of the test it is.
    pub run_index: u64,
    /// The number of the run.
    pub run_number: u64,
    /// The processes.
    pub pids: &'a Vec<u32>,
    /// The memory of each process.
    pub rss: &'a Tally,
    /// The open files of each process.
    pub fds: &'a Tally,
    /// What the components and the monitor report.
    pub status: &'a Snapshot,
    /// The free space on the disk, as it is written.
    pub free: &'a str,
}

impl<'a> Sample<'a> {
    /// The cells of a sample, in the order of [`soak::columns`].
    pub open spec fn cells(&self) -> Seq<Seq<char>> {
        seq![
            self.time@,
            self.elapsed@,
            text::decimal(self.run_index as nat),
            text::decimal(self.run_number as nat),
        ] + process_cells(self.rss@, self.pids@) + process_cells(self.fds@, self.pids@)
            + counter_cells(COUNTER_SOURCES@, self.status@) + seq![self.free@] + counter_cells(
            MONITOR_SOURCES@,
            self.status@,
        )
    }
}

fn push_processes(cells: &mut Vec<String>, counts: &Tally, pids: &Vec<u32>)
    requires
        counts.wf(),
    ensures
        text::values(final(cells)@) == text::values(old(cells)@) + process_cells(counts@, pids@),
{
    let ghost start = text::values(cells@);
    let ghost all = process_cells(counts@, pids@);
    let mut i: usize = 0;
    assert(text::values(cells@) =~= start + all.take(0));
    while i < pids.len()
        invariant
            i <= pids@.len(),
            counts.wf(),
            all == process_cells(counts@, pids@),
            text::values(cells@) == start + all.take(i as int),
        decreases pids@.len() - i,
    {
        let pid: u64 = pids[i] as u64;
        let mut c: String = String::new();
        if counts.has(pid) {
            c = decimal_string(counts.get(pid));
        } else {
            assert(c@ =~= Seq::empty());
        }
        push_text(cells, c);
        i = i + 1;
        assert(text::values(cells@) =~= start + all.take(i as int));
    }
    assert(all.take(i as int) =~= all);
}

fn push_counters(cells: &mut Vec<String>, sources: &[&'static str], status: &Snapshot)
    ensures
        text::values(final(cells)@) == text::values(old(cells)@) + counter_cells(
            sources@,
            status@,
        ),
{
    let ghost start = text::values(cells@);
    let ghost all = counter_cells(sources@, status@);
    let mut i: usize = 0;
    assert(text::values(cells@) =~= start + all.take(0));
    while i < sources.len()
        invariant
            i <= sources@.len(),
            all == counter_cells(sources@, status@),
            text::values(cells@) == start + all.take(i as int),
        decreases sources@.len() - i,
    {
        push_text(cells, counter_cell(sources[i], status));
        i = i + 1;
        assert(text::values(cells@) =~= start + all.take(i as int));
    }
    assert(all.take(i as int) =~= all);
}

/// The line of a sample.
pub fn sample_row(sample: &Sample<'_>) -> (s: String)
    requires
        sample.rss.wf(),
        sample.fds.wf(),
    ensures
        s@ == text::join(sample.cells(), ","@),
{
    let mut cells: Vec<String> = Vec::new();
    cells.push(sample.time.to_string());
    cells.push(sample.elapsed.to_string());
    cells.push(decimal_string(sample.run_index));
    cells.push(decimal_string(sample.run_number));
    assert(text::values(cells@) =~= seq![
        sample.time@,
        sample.elapsed@,
        text::decimal(sample.run_index as nat),
        text::decimal(sample.run_number as nat),
    ]);
    push_processes(&mut cells, sample.rss, sample.pids);
    push_processes(&mut cells, sample.fds, sample.pids);
    push_counters(&mut cells, &COUNTER_SOURCES, sample.status);
    let ghost before = text::values(cells@);
    push_text(&mut cells, sample.free.to_string());
    assert(text::values(cells@) =~= before + seq![sample.free@]);
    push_counters(&mut cells, &MONITOR_SOURCES, sample.status);
    join_texts(&cells, ",")
}

/// A sample has a cell for each column.
pub proof fn law_a_sample_has_a_cell_for_each_column(sample: Sample<'_>, procs: Seq<Seq<char>>)
    requires
        procs.len() == sample.pids@.len(),
    ensures
        sample.cells().len() == soak::columns(procs).len(),
{
}

// ---------------------------------------------------------------------
// Reading
// ---------------------------------------------------------------------

/// A file of samples.
#[derive(Debug)]
pub struct Table {
    /// The names of the columns.
    pub columns: Vec<String>,
    /// The cells of each sample.
    pub rows: Vec<Vec<String>>,
}

/// The value of a [`Table`].
pub struct TableView {
    pub columns: Seq<Seq<char>>,
    pub rows: Seq<Seq<Seq<char>>>,
}

impl View for Table {
    type V = TableView;

    open spec fn view(&self) -> TableView {
        TableView {
            columns: text::values(self.columns@),
            rows: self.rows@.map_values(|r: Vec<String>| text::values(r@)),
        }
    }
}

/// The samples that the lines hold: those with `n` cells.
pub open spec fn rows_in(lines: Seq<Seq<char>>, n: nat) -> Seq<Seq<Seq<char>>>
    decreases lines.len(),
{
    if lines.len() == 0 {
        Seq::empty()
    } else {
        let before = rows_in(lines.drop_last(), n);
        let cells = text::split(lines.last(), ',');
        if cells.len() == n {
            before.push(cells)
        } else {
            before
        }
    }
}

/// What a file of samples holds. Lines with more or fewer cells than there are columns are left
/// out.
pub open spec fn table_in(file: Seq<char>) -> TableView {
    let lines = text::lines(file);
    if lines.len() == 0 {
        TableView { columns: Seq::empty(), rows: Seq::empty() }
    } else {
        let columns = text::split(lines[0], ',');
        TableView { columns, rows: rows_in(lines.drop_first(), columns.len()) }
    }
}

/// Reads a file of samples.
pub fn read_table(file: &str) -> (table: Table)
    ensures
        table@ == table_in(file@),
        is_even(table@),
{
    proof {
        law_samples_that_are_read_are_even(file@);
    }
    let chars: Vec<char> = chars_of(file);
    let lines: Vec<Vec<char>> = split_lines(chars.as_slice());
    let ghost all = text::lines(file@);
    if lines.len() == 0 {
        let table = Table { columns: Vec::new(), rows: Vec::new() };
        assert(table@.columns =~= table_in(file@).columns);
        assert(table@.rows =~= table_in(file@).rows);
        return table;
    }
    let columns: Vec<String> = split_at_each(lines[0].as_slice(), ',');
    let ghost n = text::split(all[0], ',').len();
    let ghost rest = all.drop_first();
    assert(text::values(columns@).len() == columns@.len());
    let mut rows: Vec<Vec<String>> = Vec::new();
    let mut i: usize = 1;
    assert(rest.take(0) =~= Seq::empty());
    assert(rows@.map_values(|r: Vec<String>| text::values(r@)) =~= rows_in(rest.take(0), n));
    while i < lines.len()
        invariant
            1 <= i <= lines@.len() == all.len(),
            forall|k: int| 0 <= k < lines@.len() ==> (#[trigger] lines@[k])@ == all[k],
            rest == all.drop_first(),
            n == columns@.len(),
            rows@.map_values(|r: Vec<String>| text::values(r@)) == rows_in(rest.take(i - 1), n),
        decreases lines@.len() - i,
    {
        let ghost before = rows@.map_values(|r: Vec<String>| text::values(r@));
        assert(rest.take(i as int).drop_last() =~= rest.take(i - 1));
        assert(rest.take(i as int).last() == lines@[i as int]@);
        let cells: Vec<String> = split_at_each(lines[i].as_slice(), ',');
        let ghost values = text::values(cells@);
        assert(values.len() == cells@.len());
        if cells.len() == columns.len() {
            rows.push(cells);
            assert(rows@.map_values(|r: Vec<String>| text::values(r@)) =~= before.push(values));
        }
        i = i + 1;
    }
    assert(rest.take(i - 1) =~= rest);
    Table { columns, rows }
}

/// A file of samples with these columns and cells.
pub open spec fn file_of(columns: Seq<Seq<char>>, rows: Seq<Seq<Seq<char>>>) -> Seq<char> {
    text::lined(
        seq![text::join(columns, ","@)] + rows.map_values(
            |cells: Seq<Seq<char>>| text::join(cells, ","@),
        ),
    )
}

/// Whether a cell can stand in a file of samples: it holds no comma and no end of line.
pub open spec fn is_plain(cell: Seq<char>) -> bool {
    !cell.contains(',') && !cell.contains('\n') && !cell.contains('\r')
}

proof fn lemma_a_plain_line(cells: Seq<Seq<char>>)
    requires
        cells.len() > 0,
        forall|i: int| 0 <= i < cells.len() ==> is_plain(#[trigger] cells[i]),
    ensures
        text::split(text::join(cells, ","@), ',') == cells,
        !text::join(cells, ","@).contains('\n'),
        !text::join(cells, ","@).contains('\r'),
    decreases cells.len(),
{
    reveal_strlit(",");
    assert(","@ =~= seq![',']);
    text::law_joined_parts_are_split_again(cells, ',');
    assert(is_plain(cells.last()));
    if cells.len() > 1 {
        let front = cells.drop_last();
        assert forall|i: int| 0 <= i < front.len() implies is_plain(#[trigger] front[i]) by {
            assert(front[i] == cells[i]);
        }
        lemma_a_plain_line(front);
        let line = text::join(cells, ","@);
        let before = text::join(front, ","@);
        assert forall|i: int| 0 <= i < line.len() implies line[i] != '\n' && line[i] != '\r' by {
            if i < before.len() {
                assert(before.contains(line[i]));
            } else if i > before.len() {
                assert(line[i] == cells.last()[i - before.len() - 1]);
                assert(cells.last().contains(line[i]));
            }
        }
    } else {
        assert(cells.last() == cells[0]);
    }
}

proof fn lemma_rows_in(lines: Seq<Seq<char>>, rows: Seq<Seq<Seq<char>>>, n: nat)
    requires
        lines.len() == rows.len(),
        forall|i: int|
            0 <= i < rows.len() ==> text::split(#[trigger] lines[i], ',') == rows[i]
                && rows[i].len() == n,
    ensures
        rows_in(lines, n) == rows,
    decreases rows.len(),
{
    if rows.len() > 0 {
        let l = lines.drop_last();
        let r = rows.drop_last();
        assert forall|i: int| 0 <= i < r.len() implies text::split(#[trigger] l[i], ',') == r[i]
            && r[i].len() == n by {
            assert(l[i] == lines[i]);
        }
        lemma_rows_in(l, r, n);
        assert(lines.last() == lines[lines.len() - 1]);
        assert(r.push(rows.last()) =~= rows);
    } else {
        assert(rows_in(lines, n) =~= rows);
    }
}

/// The samples that were written to a file are read back, each whole and in order.
pub proof fn law_written_samples_are_read_back(
    columns: Seq<Seq<char>>,
    rows: Seq<Seq<Seq<char>>>,
)
    requires
        columns.len() > 0,
        forall|i: int| 0 <= i < columns.len() ==> is_plain(#[trigger] columns[i]),
        forall|i: int| 0 <= i < rows.len() ==> (#[trigger] rows[i]).len() == columns.len(),
        forall|i: int, k: int|
            0 <= i < rows.len() && 0 <= k < rows[i].len() ==> is_plain(#[trigger] rows[i][k]),
    ensures
        table_in(file_of(columns, rows)) == (TableView { columns, rows }),
{
    let bodies = rows.map_values(|cells: Seq<Seq<char>>| text::join(cells, ","@));
    let lines = seq![text::join(columns, ","@)] + bodies;
    lemma_a_plain_line(columns);
    assert forall|i: int| 0 <= i < rows.len() implies text::split(#[trigger] bodies[i], ',')
        == rows[i] && rows[i].len() == columns.len() && !bodies[i].contains('\n')
        && !bodies[i].contains('\r') by {
        assert forall|k: int| 0 <= k < rows[i].len() implies is_plain(#[trigger] rows[i][k]) by {}
        lemma_a_plain_line(rows[i]);
    }
    assert forall|i: int| 0 <= i < lines.len() implies !(#[trigger] lines[i]).contains('\n')
        && text::without_cr(lines[i]) == lines[i] by {
        if i > 0 {
            assert(lines[i] == bodies[i - 1]);
        }
        if lines[i].len() > 0 && lines[i].last() == '\r' {
            assert(lines[i].contains(lines[i][lines[i].len() - 1]));
        }
    }
    text::law_written_lines_are_read_back(lines);
    assert(lines.drop_first() =~= bodies);
    lemma_rows_in(bodies, rows, columns.len());
}

/// The number in the column of a name: in the last such column whose cell is a number.
pub open spec fn number_in(columns: Seq<Seq<char>>, cells: Seq<Seq<char>>, name: Seq<char>) -> Option<
    Seq<char>,
>
    decreases columns.len(),
{
    if columns.len() == 0 {
        None
    } else if columns.last() == name && text::is_fraction(cells.last()) {
        Some(cells.last())
    } else {
        number_in(columns.drop_last(), cells.drop_last(), name)
    }
}

/// The numbers in the column of a name, of the samples that have one.
pub open spec fn numbers_in(
    columns: Seq<Seq<char>>,
    rows: Seq<Seq<Seq<char>>>,
    name: Seq<char>,
) -> Seq<Seq<char>>
    decreases rows.len(),
{
    if rows.len() == 0 {
        Seq::empty()
    } else {
        let before = numbers_in(columns, rows.drop_last(), name);
        match number_in(columns, rows.last(), name) {
            Some(n) => before.push(n),
            None => before,
        }
    }
}

/// Whether each sample has a cell for each column.
pub open spec fn is_even(table: TableView) -> bool {
    forall|i: int| 0 <= i < table.rows.len() ==> (#[trigger] table.rows[i]).len()
        == table.columns.len()
}

proof fn lemma_rows_are_even(lines: Seq<Seq<char>>, n: nat, i: int)
    requires
        0 <= i < rows_in(lines, n).len(),
    ensures
        rows_in(lines, n)[i].len() == n,
    decreases lines.len(),
{
    if lines.len() > 0 {
        let before = rows_in(lines.drop_last(), n);
        if i < before.len() {
            lemma_rows_are_even(lines.drop_last(), n, i);
        }
    }
}

/// Every sample that is read has a cell for each column.
pub proof fn law_samples_that_are_read_are_even(file: Seq<char>)
    ensures
        is_even(table_in(file)),
{
    let table = table_in(file);
    let lines = text::lines(file);
    assert forall|i: int| 0 <= i < table.rows.len() implies (#[trigger] table.rows[i]).len()
        == table.columns.len() by {
        if lines.len() > 0 {
            lemma_rows_are_even(lines.drop_first(), table.columns.len(), i);
        }
    }
}

fn number_of(columns: &Vec<String>, cells: &Vec<String>, name: &str) -> (n: Option<String>)
    requires
        columns@.len() == cells@.len(),
    ensures
        match number_in(text::values(columns@), text::values(cells@), name@) {
            Some(v) => n matches Some(s) && s@ == v,
            None => n is None,
        },
{
    let ghost names = text::values(columns@);
    let ghost all = text::values(cells@);
    let mut i: usize = columns.len();
    assert(names.take(i as int) =~= names);
    assert(all.take(i as int) =~= all);
    while i > 0
        invariant
            i <= columns@.len() == cells@.len(),
            names == text::values(columns@),
            all == text::values(cells@),
            number_in(names.take(i as int), all.take(i as int), name@) == number_in(
                names,
                all,
                name@,
            ),
        decreases i,
    {
        assert(names.take(i as int).drop_last() =~= names.take(i - 1));
        assert(all.take(i as int).drop_last() =~= all.take(i - 1));
        i = i - 1;
        let cell: Vec<char> = chars_of(cells[i].as_str());
        if same(columns[i].as_str(), name) && is_decimal_fraction(cell.as_slice()) {
            return Some(cells[i].clone());
        }
    }
    None
}

/// The numbers in the column of a name, of the samples that have one.
pub fn series(table: &Table, name: &str) -> (out: Vec<String>)
    requires
        is_even(table@),
    ensures
        text::values(out@) == numbers_in(table@.columns, table@.rows, name@),
{
    let ghost all = table@.rows;
    let mut out: Vec<String> = Vec::new();
    let mut i: usize = 0;
    assert(all.take(0) =~= Seq::empty());
    assert(text::values(out@) =~= Seq::empty());
    while i < table.rows.len()
        invariant
            i <= table.rows@.len(),
            is_even(table@),
            all == table@.rows,
            text::values(out@) == numbers_in(table@.columns, all.take(i as int), name@),
        decreases table.rows@.len() - i,
    {
        assert(all.take(i + 1).drop_last() =~= all.take(i as int));
        assert(all.take(i + 1).last() == text::values(table.rows@[i as int]@));
        assert(table@.rows[i as int].len() == table@.columns.len());
        if let Some(n) = number_of(&table.columns, &table.rows[i], name) {
            push_text(&mut out, n);
        }
        i = i + 1;
    }
    assert(all.take(i as int) =~= all);
    out
}

/// The number in the column of a name, of each sample.
pub fn column_of(table: &Table, name: &str) -> (out: Vec<Option<String>>)
    requires
        is_even(table@),
    ensures
        out@.len() == table@.rows.len(),
        forall|i: int|
            0 <= i < out@.len() ==> match number_in(table@.columns, table@.rows[i], name@) {
                Some(v) => (#[trigger] out@[i]) matches Some(s) && s@ == v,
                None => out@[i] is None,
            },
{
    let mut out: Vec<Option<String>> = Vec::new();
    let mut i: usize = 0;
    while i < table.rows.len()
        invariant
            i <= table.rows@.len(),
            is_even(table@),
            out@.len() == i,
            forall|k: int|
                0 <= k < i ==> match number_in(table@.columns, table@.rows[k], name@) {
                    Some(v) => (#[trigger] out@[k]) matches Some(s) && s@ == v,
                    None => out@[k] is None,
                },
        decreases table.rows@.len() - i,
    {
        assert(table@.rows[i as int] == text::values(table.rows@[i as int]@));
        assert(table@.rows[i as int].len() == table@.columns.len());
        out.push(number_of(&table.columns, &table.rows[i], name));
        i = i + 1;
    }
    out
}

} // verus!
