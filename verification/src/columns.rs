//! What a table holds after a header and some rows: stated as a map, and
//! built row by row.

use vstd::prelude::*;
use crate::number::{
    cell_value, decimal_text, decimal_value, is_decimal, lemma_cell_of_decimal_text, parse_cell,
};
use crate::table::Table;

verus! {

/// The entries that the first `upto` cells of `row` give to the column
/// `name`: from the left, one for each cell that stands under that name in
/// `header`. A cell beyond the end of the header gives none.
pub open spec fn row_entries(
    header: Seq<Seq<char>>,
    row: Seq<Seq<char>>,
    name: Seq<char>,
    upto: int,
) -> Seq<Option<i64>>
    decreases upto,
{
    if upto <= 0 {
        Seq::empty()
    } else {
        let before = row_entries(header, row, name, upto - 1);
        if upto <= row.len() && upto <= header.len() && header[upto - 1] == name {
            before.push(cell_value(row[upto - 1]))
        } else {
            before
        }
    }
}

/// The entries that the first `upto` of `rows` give to the column `name`,
/// row after row.
pub open spec fn column_entries(
    header: Seq<Seq<char>>,
    rows: Seq<Seq<Seq<char>>>,
    name: Seq<char>,
    upto: int,
) -> Seq<Option<i64>>
    decreases upto,
{
    if upto <= 0 {
        Seq::empty()
    } else {
        column_entries(header, rows, name, upto - 1) + row_entries(
            header,
            rows[upto - 1],
            name,
            rows[upto - 1].len() as int,
        )
    }
}

/// The table of a header before any row: an empty column for each name.
pub open spec fn empty_columns(header: Seq<Seq<char>>) -> Map<Seq<char>, Seq<Option<i64>>> {
    Map::new(|name: Seq<char>| header.contains(name), |name: Seq<char>| Seq::empty())
}

/// The table after the first `upto` of `rows`: a column for each name of the
/// header, with the entries that those rows give it.
pub open spec fn table_after(header: Seq<Seq<char>>, rows: Seq<Seq<Seq<char>>>, upto: int) -> Map<
    Seq<char>,
    Seq<Option<i64>>,
> {
    Map::new(
        |name: Seq<char>| header.contains(name),
        |name: Seq<char>| column_entries(header, rows, name, upto),
    )
}

/// The table of a header and its rows. Columns that share a name are one
/// column, which gets an entry from each of their cells.
pub open spec fn table_of(header: Seq<Seq<char>>, rows: Seq<Seq<Seq<char>>>) -> Map<
    Seq<char>,
    Seq<Option<i64>>,
> {
    table_after(header, rows, rows.len() as int)
}

/// A table's columns, each with the entries that the first `upto` cells of
/// `row` give it appended.
pub open spec fn with_cells(
    columns: Map<Seq<char>, Seq<Option<i64>>>,
    header: Seq<Seq<char>>,
    row: Seq<Seq<char>>,
    upto: int,
) -> Map<Seq<char>, Seq<Option<i64>>> {
    Map::new(
        |name: Seq<char>| columns.contains_key(name),
        |name: Seq<char>| columns[name] + row_entries(header, row, name, upto),
    )
}

/// One more name in the header is one more empty column, or the same
/// columns where the name was there already.
pub proof fn lemma_empty_columns_push(header: Seq<Seq<char>>, name: Seq<char>)
    ensures
        empty_columns(header.push(name)) == empty_columns(header).insert(
            name,
            Seq::<Option<i64>>::empty(),
        ),
{
    let longer = header.push(name);
    assert forall|k: Seq<char>| longer.contains(k) <==> header.contains(k) || k == name by {
        if header.contains(k) {
            let i = header.index_of(k);
            assert(longer[i] == k);
        }
        if k == name {
            assert(longer[header.len() as int] == k);
        }
    }
}

/// Cells beyond the end of the header give no entries.
pub proof fn lemma_row_entries_past_header(
    header: Seq<Seq<char>>,
    row: Seq<Seq<char>>,
    name: Seq<char>,
    upto: int,
)
    requires
        header.len() <= upto,
    ensures
        row_entries(header, row, name, upto) == row_entries(header, row, name, header.len() as int),
    decreases upto,
{
    if header.len() < upto {
        lemma_row_entries_past_header(header, row, name, upto - 1);
    }
}

impl Table {
    /// Begins a table: an empty column for each name of the header. A name
    /// that stands at several places gets one column.
    pub fn from_header(header: &Vec<String>) -> (table: Table)
        ensures
            table.wf(),
            table@ == empty_columns(header.deep_view()),
    {
        let ghost names = header.deep_view();
        let mut table: Table = Table::new();
        let mut at: usize = 0;
        while at < header.len()
            invariant
                names == header.deep_view(),
                at <= header.len(),
                table.wf(),
                table@ == empty_columns(names.take(at as int)),
            decreases header.len() - at,
        {
            table.insert_empty(header[at].as_str());
            proof {
                let name = names[at as int];
                assert(names.take(at + 1) =~= names.take(at as int).push(name));
                lemma_empty_columns_push(names.take(at as int), name);
            }
            at = at + 1;
        }
        proof {
            assert(names.take(at as int) =~= names);
        }
        table
    }

    /// Reads one row into the table: each cell that stands under a name of
    /// the header is read as a number and appended to the column under that
    /// name. Cells beyond the end of the header are dropped, and a row that
    /// ends early leaves the columns of the missing cells as they are.
    pub fn add_row(&mut self, header: &Vec<String>, row: &Vec<String>)
        requires
            old(self).wf(),
        ensures
            final(self).wf(),
            final(self).names() == old(self).names(),
            final(self)@ == with_cells(
                old(self)@,
                header.deep_view(),
                row.deep_view(),
                row.len() as int,
            ),
    {
        let ghost names = header.deep_view();
        let ghost cells = row.deep_view();
        let mut at: usize = 0;
        while at < row.len() && at < header.len()
            invariant
                names == header.deep_view(),
                cells == row.deep_view(),
                at <= row.len(),
                at <= header.len(),
                self.wf(),
                self.names() == old(self).names(),
                self@ == with_cells(old(self)@, names, cells, at as int),
            decreases row.len() - at,
        {
            let value: Option<i64> = parse_cell(row[at].as_str());
            self.append(header[at].as_str(), value);
            at = at + 1;
        }
        proof {
            if at < row.len() {
                assert forall|name: Seq<char>|
                    row_entries(names, cells, name, at as int) == row_entries(
                        names,
                        cells,
                        name,
                        cells.len() as int,
                    ) by {
                    lemma_row_entries_past_header(names, cells, name, cells.len() as int);
                }
            }
        }
    }
}

/// Whether `name` stands at `place` in the header and nowhere else.
pub open spec fn stands_only_at(header: Seq<Seq<char>>, name: Seq<char>, place: int) -> bool {
    &&& 0 <= place < header.len()
    &&& forall|j: int| 0 <= j < header.len() ==> (#[trigger] header[j] == name <==> j == place)
}

/// Whether every one of `rows` has a cell at `place`.
pub open spec fn every_row_reaches(rows: Seq<Seq<Seq<char>>>, place: int) -> bool {
    forall|r: int| 0 <= r < rows.len() ==> place < (#[trigger] rows[r]).len()
}

/// Header fidelity: whatever rows have been read, the table has a column
/// for each name of the header and for no other name.
pub proof fn lemma_header_fidelity(header: Seq<Seq<char>>, rows: Seq<Seq<Seq<char>>>, upto: int)
    ensures
        table_after(header, rows, upto).dom() == header.to_set(),
        table_of(header, rows).dom() == header.to_set(),
{
}

/// Columns only grow: what a column holds after some rows is the beginning
/// of what it holds after more rows.
pub proof fn lemma_columns_grow(
    header: Seq<Seq<char>>,
    rows: Seq<Seq<Seq<char>>>,
    name: Seq<char>,
    fewer: int,
    more: int,
)
    requires
        0 <= fewer <= more,
    ensures
        column_entries(header, rows, name, fewer).is_prefix_of(
            column_entries(header, rows, name, more),
        ),
    decreases more,
{
    if fewer < more {
        lemma_columns_grow(header, rows, name, fewer, more - 1);
    }
}

/// A row gives one entry to a column whose name stands at one place of the
/// header, if the row reaches that place: what its cell there holds.
pub proof fn lemma_row_entries_single(
    header: Seq<Seq<char>>,
    row: Seq<Seq<char>>,
    name: Seq<char>,
    place: int,
    upto: int,
)
    requires
        stands_only_at(header, name, place),
        place < row.len(),
    ensures
        row_entries(header, row, name, upto) == if upto <= place {
            Seq::<Option<i64>>::empty()
        } else {
            seq![cell_value(row[place])]
        },
    decreases upto,
{
    if upto > 0 {
        lemma_row_entries_single(header, row, name, place, upto - 1);
        if upto - 1 == place {
        } else if upto <= row.len() && upto <= header.len() {
        }
    }
}

/// Row order: a column whose name stands at one place of the header, in a
/// table whose rows all reach that place, has one entry for each row read,
/// and its `i`-th entry is what the `i`-th row holds at that place. With all
/// the rows for `upto`, this is the table of the whole input.
pub proof fn lemma_row_order(
    header: Seq<Seq<char>>,
    rows: Seq<Seq<Seq<char>>>,
    place: int,
    upto: int,
    i: int,
)
    requires
        stands_only_at(header, header[place], place),
        every_row_reaches(rows, place),
        0 <= i < upto <= rows.len(),
    ensures
        table_after(header, rows, upto).contains_key(header[place]),
        table_after(header, rows, upto)[header[place]].len() == upto,
        table_after(header, rows, upto)[header[place]][i] == cell_value(rows[i][place]),
    decreases upto,
{
    lemma_column_length(header, rows, place, upto - 1);
    lemma_row_entries_single(
        header,
        rows[upto - 1],
        header[place],
        place,
        rows[upto - 1].len() as int,
    );
    if i < upto - 1 {
        lemma_row_order(header, rows, place, upto - 1, i);
    }
}

/// Lock step: a column whose name stands at one place of the header, in a
/// table whose rows all reach that place, has as many entries as rows were
/// read.
pub proof fn lemma_column_length(
    header: Seq<Seq<char>>,
    rows: Seq<Seq<Seq<char>>>,
    place: int,
    upto: int,
)
    requires
        stands_only_at(header, header[place], place),
        every_row_reaches(rows, place),
        0 <= upto <= rows.len(),
    ensures
        column_entries(header, rows, header[place], upto).len() == upto,
    decreases upto,
{
    if upto > 0 {
        lemma_column_length(header, rows, place, upto - 1);
        lemma_row_entries_single(
            header,
            rows[upto - 1],
            header[place],
            place,
            rows[upto - 1].len() as int,
        );
    }
}

/// Where the cell at place `c` of row `r` is found in its column: behind
/// what the rows before `r` gave the column, and behind what the cells of
/// row `r` before `c` gave it.
pub open spec fn entry_place(
    header: Seq<Seq<char>>,
    rows: Seq<Seq<Seq<char>>>,
    r: int,
    c: int,
) -> int {
    (column_entries(header, rows, header[c], r).len() + row_entries(
        header,
        rows[r],
        header[c],
        c,
    ).len()) as int
}

/// Whether row `r` has a cell at place `c`, and the header a name for it.
pub open spec fn cell_under_header(
    header: Seq<Seq<char>>,
    rows: Seq<Seq<Seq<char>>>,
    r: int,
    c: int,
) -> bool {
    0 <= r < rows.len() && 0 <= c < rows[r].len() && c < header.len()
}

/// What a row gives a column only grows, cell by cell.
pub proof fn lemma_row_entries_grow(
    header: Seq<Seq<char>>,
    row: Seq<Seq<char>>,
    name: Seq<char>,
    fewer: int,
    more: int,
)
    requires
        0 <= fewer <= more,
    ensures
        row_entries(header, row, name, fewer).is_prefix_of(row_entries(header, row, name, more)),
    decreases more,
{
    if fewer < more {
        lemma_row_entries_grow(header, row, name, fewer, more - 1);
    }
}

/// Every cell under the header is read: the column under whose name it
/// stands holds what the cell holds, at the cell's place in that column.
pub proof fn lemma_cell_entry(
    header: Seq<Seq<char>>,
    rows: Seq<Seq<Seq<char>>>,
    r: int,
    c: int,
)
    requires
        cell_under_header(header, rows, r, c),
    ensures
        table_of(header, rows).contains_key(header[c]),
        0 <= entry_place(header, rows, r, c) < table_of(header, rows)[header[c]].len(),
        table_of(header, rows)[header[c]][entry_place(header, rows, r, c)] == cell_value(
            rows[r][c],
        ),
{
    let name = header[c];
    let row = rows[r];
    let earlier = column_entries(header, rows, name, r);
    let in_row = row_entries(header, row, name, c);
    let with_cell = row_entries(header, row, name, c + 1);
    let whole_row = row_entries(header, row, name, row.len() as int);
    let with_row = column_entries(header, rows, name, r + 1);
    let whole = column_entries(header, rows, name, rows.len() as int);
    let at = in_row.len() as int;
    lemma_row_entries_grow(header, row, name, c + 1, row.len() as int);
    lemma_columns_grow(header, rows, name, r + 1, rows.len() as int);
    assert(whole_row[at] == whole_row.subrange(0, with_cell.len() as int)[at]);
    assert(whole[earlier.len() + at] == whole.subrange(0, with_row.len() as int)[earlier.len()
        + at]);
}

/// In a table whose rows all reach the one place at which a name stands, a
/// cell at that place is found in its column at the number of its row.
pub proof fn lemma_entry_place_is_row(
    header: Seq<Seq<char>>,
    rows: Seq<Seq<Seq<char>>>,
    place: int,
    r: int,
)
    requires
        stands_only_at(header, header[place], place),
        every_row_reaches(rows, place),
        0 <= r < rows.len(),
    ensures
        entry_place(header, rows, r, place) == r,
{
    lemma_column_length(header, rows, place, r);
    lemma_row_entries_single(header, rows[r], header[place], place, place);
}

/// Numbers are read back: where a cell under the header holds the decimal
/// text of a 64-bit integer, its entry in its column is that integer.
pub proof fn lemma_number_read_back(
    header: Seq<Seq<char>>,
    rows: Seq<Seq<Seq<char>>>,
    r: int,
    c: int,
    v: i64,
)
    requires
        cell_under_header(header, rows, r, c),
        rows[r][c] == decimal_text(v as int),
    ensures
        table_of(header, rows)[header[c]][entry_place(header, rows, r, c)] == Some(v),
{
    lemma_cell_entry(header, rows, r, c);
    lemma_cell_of_decimal_text(v);
}

/// Missing values: where a cell under the header is empty, is no decimal
/// text, or holds a number that does not fit in 64 bits with a sign, its
/// entry in its column is the missing value.
pub proof fn lemma_missing_value(
    header: Seq<Seq<char>>,
    rows: Seq<Seq<Seq<char>>>,
    r: int,
    c: int,
)
    requires
        cell_under_header(header, rows, r, c),
        rows[r][c].len() == 0 || !is_decimal(rows[r][c]) || decimal_value(rows[r][c]) < i64::MIN
            || decimal_value(rows[r][c]) > i64::MAX,
    ensures
        table_of(header, rows)[header[c]][entry_place(header, rows, r, c)] == None::<i64>,
{
    lemma_cell_entry(header, rows, r, c);
}

} // verus!
