//! A small table of text cells: named columns, rows of equal width.
//!
//! Tables are what the output strategies build from batches of records.
//! They are stacked, joined on key columns and cut down to one row per key
//! here; writing them out is left to whoever asked for them.
//!
//! The order of the rows is part of what a table says. Every operation
//! here fixes it: a join keeps the rows of the left table in their order
//! and gives the partners of one row in the order of the right table, a
//! stack keeps the order of its tables, and of rows with one key the first
//! stays where it stood.

use crate::key_index::{
    chains_of, code_of_key, key_code, lemma_agreeing_keys_share_code, lemma_first_from,
    lemma_no_partners_between, KeyIndex,
};
use crate::utils::errors::SsimError;
use vstd::prelude::*;

verus! {

/// One cell of a table.
#[derive(Debug)]
pub enum Cell {
    /// No value: the row found no partner in a join.
    Null,
    /// A text value.
    Text(String),
    /// A list of detail rows gathered into one cell, each a list of texts.
    Nested(Vec<Vec<String>>),
}

/// A cell as plain values.
pub enum CellView {
    Null,
    Text(Seq<char>),
    Nested(Seq<Seq<Seq<char>>>),
}

/// A list of texts as plain values.
pub open spec fn texts_view(texts: Seq<String>) -> Seq<Seq<char>> {
    texts.map_values(|t: String| t@)
}

/// A list of detail rows as plain values.
pub open spec fn nested_view(items: Seq<Vec<String>>) -> Seq<Seq<Seq<char>>> {
    items.map_values(|item: Vec<String>| texts_view(item@))
}

impl View for Cell {
    type V = CellView;

    open spec fn view(&self) -> CellView {
        match self {
            Cell::Null => CellView::Null,
            Cell::Text(text) => CellView::Text(text@),
            Cell::Nested(items) => CellView::Nested(nested_view(items@)),
        }
    }
}

/// A row of cells as plain values.
pub open spec fn cells_view(cells: Seq<Cell>) -> Seq<CellView> {
    cells.map_values(|c: Cell| c@)
}

/// Rows of cells as plain values.
pub open spec fn rows_view(rows: Seq<Vec<Cell>>) -> Seq<Seq<CellView>> {
    rows.map_values(|r: Vec<Cell>| cells_view(r@))
}

/// A table as plain values: the column names and the rows, top to bottom.
pub struct TableView {
    pub names: Seq<Seq<char>>,
    pub rows: Seq<Seq<CellView>>,
}

impl TableView {
    /// Every row has one cell per column.
    pub open spec fn wf(self) -> bool {
        forall|i: int| 0 <= i < self.rows.len() ==> (#[trigger] self.rows[i]).len() == self.names.len()
    }

    /// The table without columns and without rows.
    pub open spec fn empty() -> TableView {
        TableView { names: Seq::empty(), rows: Seq::empty() }
    }
}

/// The first column that bears `name`, if there is one.
pub open spec fn column_at(names: Seq<Seq<char>>, name: Seq<char>) -> Option<int>
    decreases names.len(),
{
    if names.len() == 0 {
        None
    } else {
        match column_at(names.drop_last(), name) {
            Some(at) => Some(at),
            None => if names.last() == name {
                Some(names.len() - 1)
            } else {
                None
            },
        }
    }
}

/// `column_at` finds a column of that name, and the first one.
pub proof fn lemma_column_at(names: Seq<Seq<char>>, name: Seq<char>)
    ensures
        match column_at(names, name) {
            Some(at) => 0 <= at < names.len() && names[at] == name && forall|i: int|
                0 <= i < at ==> names[i] != name,
            None => forall|i: int| 0 <= i < names.len() ==> names[i] != name,
        },
    decreases names.len(),
{
    if names.len() > 0 {
        lemma_column_at(names.drop_last(), name);
        assert forall|i: int| 0 <= i < names.len() - 1 implies names.drop_last()[i]
            == names[i] by {}
    }
}

/// The plain values of a list of texts grown by one.
pub proof fn lemma_texts_push(texts: Seq<String>, text: String)
    ensures
        texts_view(texts.push(text)) == texts_view(texts).push(text@),
{
}

/// The plain values of a list of detail rows grown by one.
pub proof fn lemma_nested_push(items: Seq<Vec<String>>, item: Vec<String>)
    ensures
        nested_view(items.push(item)) == nested_view(items).push(texts_view(item@)),
{
}

/// The plain values of a row grown by one cell.
pub proof fn lemma_cells_push(cells: Seq<Cell>, cell: Cell)
    ensures
        cells_view(cells.push(cell)) == cells_view(cells).push(cell@),
{
}

/// The plain values of a list of rows grown by one row.
pub proof fn lemma_rows_push(rows: Seq<Vec<Cell>>, row: Vec<Cell>)
    ensures
        rows_view(rows.push(row)) == rows_view(rows).push(cells_view(row@)),
{
}

/// The plain values of two lists of rows, one behind the other.
pub proof fn lemma_rows_concat(first: Seq<Vec<Cell>>, second: Seq<Vec<Cell>>)
    ensures
        rows_view(first + second) == rows_view(first) + rows_view(second),
{
}

/// `String::from` on a `char`: the text that holds this one character.
#[verifier::external_body]
pub(crate) fn char_text(c: char) -> (text: String)
    ensures
        text@ == seq![c],
{
    String::from(c)
}

/// A copy of a list of texts.
pub fn copy_texts(texts: &Vec<String>) -> (copy: Vec<String>)
    ensures
        texts_view(copy@) == texts_view(texts@),
{
    let mut copy: Vec<String> = Vec::new();
    let mut at: usize = 0;
    while at < texts.len()
        invariant
            at <= texts.len(),
            texts_view(copy@) == texts_view(texts@).take(at as int),
        decreases texts.len() - at,
    {
        proof {
            lemma_texts_push(copy@, texts@[at as int]);
            assert(texts_view(texts@).take(at as int + 1) == texts_view(texts@).take(
                at as int,
            ).push(texts@[at as int]@));
        }
        copy.push(texts[at].clone());
        at = at + 1;
    }
    assert(texts_view(texts@).take(at as int) == texts_view(texts@));
    copy
}

/// A copy of a cell.
pub fn copy_cell(cell: &Cell) -> (copy: Cell)
    ensures
        copy@ == cell@,
{
    match cell {
        Cell::Null => Cell::Null,
        Cell::Text(text) => Cell::Text(text.clone()),
        Cell::Nested(items) => {
            let mut copy: Vec<Vec<String>> = Vec::new();
            let mut at: usize = 0;
            while at < items.len()
                invariant
                    at <= items.len(),
                    nested_view(copy@) == nested_view(items@).take(at as int),
                decreases items.len() - at,
            {
                let item = copy_texts(&items[at]);
                proof {
                    lemma_nested_push(copy@, item);
                    assert(nested_view(items@).take(at as int + 1) == nested_view(items@).take(
                        at as int,
                    ).push(texts_view(items@[at as int]@)));
                }
                copy.push(item);
                at = at + 1;
            }
            assert(nested_view(items@).take(at as int) == nested_view(items@));
            Cell::Nested(copy)
        },
    }
}

/// Whether two lists of texts hold the same texts.
pub fn same_texts(one: &Vec<String>, other: &Vec<String>) -> (same: bool)
    ensures
        same == (texts_view(one@) == texts_view(other@)),
{
    if one.len() != other.len() {
        assert(texts_view(one@).len() != texts_view(other@).len());
        return false;
    }
    let mut at: usize = 0;
    while at < one.len()
        invariant
            at <= one.len(),
            one.len() == other.len(),
            texts_view(one@).take(at as int) == texts_view(other@).take(at as int),
        decreases one.len() - at,
    {
        if one[at] != other[at] {
            assert(texts_view(one@)[at as int] != texts_view(other@)[at as int]);
            return false;
        }
        assert(texts_view(one@).take(at as int + 1) == texts_view(one@).take(at as int).push(
            one@[at as int]@,
        ));
        assert(texts_view(other@).take(at as int + 1) == texts_view(other@).take(at as int).push(
            other@[at as int]@,
        ));
        at = at + 1;
    }
    assert(texts_view(one@).take(at as int) == texts_view(one@));
    assert(texts_view(other@).take(at as int) == texts_view(other@));
    true
}

/// Whether two cells hold the same value.
pub fn same_cell(one: &Cell, other: &Cell) -> (same: bool)
    ensures
        same == (one@ == other@),
{
    match one {
        Cell::Null => match other {
            Cell::Null => true,
            _ => false,
        },
        Cell::Text(a) => match other {
            Cell::Text(b) => *a == *b,
            _ => false,
        },
        Cell::Nested(a) => match other {
            Cell::Nested(b) => same_nested(a, b),
            _ => false,
        },
    }
}

/// Whether two lists of detail rows hold the same texts.
fn same_nested(one: &Vec<Vec<String>>, other: &Vec<Vec<String>>) -> (same: bool)
    ensures
        same == (nested_view(one@) == nested_view(other@)),
{
    if one.len() != other.len() {
        assert(nested_view(one@).len() != nested_view(other@).len());
        return false;
    }
    let mut at: usize = 0;
    while at < one.len()
        invariant
            at <= one.len(),
            one.len() == other.len(),
            nested_view(one@).take(at as int) == nested_view(other@).take(at as int),
        decreases one.len() - at,
    {
        if !same_texts(&one[at], &other[at]) {
            assert(nested_view(one@)[at as int] != nested_view(other@)[at as int]);
            return false;
        }
        assert(nested_view(one@).take(at as int + 1) == nested_view(one@).take(at as int).push(
            texts_view(one@[at as int]@),
        ));
        assert(nested_view(other@).take(at as int + 1) == nested_view(other@).take(
            at as int,
        ).push(texts_view(other@[at as int]@)));
        at = at + 1;
    }
    assert(nested_view(one@).take(at as int) == nested_view(one@));
    assert(nested_view(other@).take(at as int) == nested_view(other@));
    true
}

/// The columns that bear the names `wanted`, in that order, if the table
/// has them all.
pub open spec fn columns_at(names: Seq<Seq<char>>, wanted: Seq<Seq<char>>) -> Option<Seq<int>>
    decreases wanted.len(),
{
    if wanted.len() == 0 {
        Some(Seq::empty())
    } else {
        match columns_at(names, wanted.drop_last()) {
            Some(found) => match column_at(names, wanted.last()) {
                Some(at) => Some(found.push(at)),
                None => None,
            },
            None => None,
        }
    }
}

/// The columns of a table that bear none of the names `dropped`, left to
/// right.
pub open spec fn columns_kept(names: Seq<Seq<char>>, dropped: Seq<Seq<char>>) -> Seq<int>
    decreases names.len(),
{
    if names.len() == 0 {
        Seq::empty()
    } else if dropped.contains(names.last()) {
        columns_kept(names.drop_last(), dropped)
    } else {
        columns_kept(names.drop_last(), dropped).push(names.len() - 1)
    }
}

/// The cells of a row that stand in the given columns.
pub open spec fn pick(row: Seq<CellView>, columns: Seq<int>) -> Seq<CellView> {
    columns.map_values(|c: int| row[c])
}

/// The names that stand at the given columns.
pub open spec fn pick_names(names: Seq<Seq<char>>, columns: Seq<int>) -> Seq<Seq<char>> {
    columns.map_values(|c: int| names[c])
}

/// A table cut down to the given columns.
pub open spec fn projected(table: TableView, columns: Seq<int>) -> TableView {
    TableView {
        names: pick_names(table.names, columns),
        rows: table.rows.map_values(|r: Seq<CellView>| pick(r, columns)),
    }
}

/// Whether two key tuples agree: cell for cell the same text. A cell
/// without a text agrees with nothing.
pub open spec fn keys_agree(left: Seq<CellView>, right: Seq<CellView>) -> bool {
    &&& left.len() == right.len()
    &&& forall|k: int| 0 <= k < left.len() ==> (#[trigger] left[k]) is Text && right[k] == left[k]
}

/// The rows of `right_rows` whose key agrees with that of `left_row`, top
/// to bottom.
pub open spec fn partners(
    left_row: Seq<CellView>,
    left_on: Seq<int>,
    right_rows: Seq<Seq<CellView>>,
    right_on: Seq<int>,
) -> Seq<Seq<CellView>>
    decreases right_rows.len(),
{
    if right_rows.len() == 0 {
        Seq::empty()
    } else {
        let before = partners(left_row, left_on, right_rows.drop_last(), right_on);
        if keys_agree(pick(left_row, left_on), pick(right_rows.last(), right_on)) {
            before.push(right_rows.last())
        } else {
            before
        }
    }
}

/// A run of empty cells.
pub open spec fn nulls(count: nat) -> Seq<CellView> {
    Seq::new(count, |i: int| CellView::Null)
}

/// The text of a cell; a cell without a text counts as the empty text.
pub open spec fn text_of(cell: CellView) -> Seq<char> {
    match cell {
        CellView::Text(text) => text,
        _ => Seq::empty(),
    }
}

/// The texts of a row that stand in the given columns.
pub open spec fn detail_of(row: Seq<CellView>, columns: Seq<int>) -> Seq<Seq<char>> {
    columns.map_values(|c: int| text_of(row[c]))
}

/// What a left join makes of one left row and its partners: one row per
/// partner, the left cells followed by the partner's cells in the columns
/// `take`; a left row without partner stays, followed by empty cells.
pub open spec fn joined_for(
    left_row: Seq<CellView>,
    found: Seq<Seq<CellView>>,
    take: Seq<int>,
) -> Seq<Seq<CellView>> {
    if found.len() == 0 {
        seq![left_row + nulls(take.len())]
    } else {
        found.map_values(|r: Seq<CellView>| left_row + pick(r, take))
    }
}

/// What a gathering join makes of one left row and its partners: always one
/// row, the left cells followed by one cell that holds the partners'
/// details; the cell is empty for a left row without partner.
pub open spec fn gathered_for(
    left_row: Seq<CellView>,
    found: Seq<Seq<CellView>>,
    take: Seq<int>,
) -> Seq<Seq<CellView>> {
    seq![
        left_row.push(
            if found.len() == 0 {
                CellView::Null
            } else {
                CellView::Nested(found.map_values(|r: Seq<CellView>| detail_of(r, take)))
            },
        ),
    ]
}

/// The rows of a left join, for the left rows top to bottom.
pub open spec fn joined_rows(
    left_rows: Seq<Seq<CellView>>,
    left_on: Seq<int>,
    right_rows: Seq<Seq<CellView>>,
    right_on: Seq<int>,
    take: Seq<int>,
    gather: bool,
) -> Seq<Seq<CellView>>
    decreases left_rows.len(),
{
    if left_rows.len() == 0 {
        Seq::empty()
    } else {
        let found = partners(left_rows.last(), left_on, right_rows, right_on);
        joined_rows(left_rows.drop_last(), left_on, right_rows, right_on, take, gather) + if gather {
            gathered_for(left_rows.last(), found, take)
        } else {
            joined_for(left_rows.last(), found, take)
        }
    }
}

/// The left join of two tables on the columns named `on`, which both must
/// have, taking along the columns of the right table named `take`. With
/// `gather_into` the partners of a left row are gathered into one cell of a
/// new column of that name instead of giving a row each.
pub open spec fn left_join_of(
    left: TableView,
    right: TableView,
    on: Seq<Seq<char>>,
    take: Seq<Seq<char>>,
    gather_into: Option<Seq<char>>,
) -> Option<TableView> {
    match (columns_at(left.names, on), columns_at(right.names, on), columns_at(right.names, take)) {
        (Some(left_on), Some(right_on), Some(taken)) => Some(
            TableView {
                names: match gather_into {
                    Some(name) => left.names.push(name),
                    None => left.names + take,
                },
                rows: joined_rows(
                    left.rows,
                    left_on,
                    right.rows,
                    right_on,
                    taken,
                    gather_into is Some,
                ),
            },
        ),
        _ => None,
    }
}

/// All rows of a list of tables, table after table.
pub open spec fn stacked_rows(tables: Seq<TableView>) -> Seq<Seq<CellView>>
    decreases tables.len(),
{
    if tables.len() == 0 {
        Seq::empty()
    } else {
        stacked_rows(tables.drop_last()) + tables.last().rows
    }
}

/// Whether all tables of a list have the columns of the first.
pub open spec fn same_columns(tables: Seq<TableView>) -> bool {
    forall|i: int| 0 <= i < tables.len() ==> (#[trigger] tables[i]).names == tables[0].names
}

/// A list of tables stacked into one: the columns of the first, the rows
/// of all, in order. No tables give the empty table; tables with different
/// columns cannot be stacked.
pub open spec fn stacked(tables: Seq<TableView>) -> Option<TableView> {
    if tables.len() == 0 {
        Some(TableView::empty())
    } else if same_columns(tables) {
        Some(TableView { names: tables[0].names, rows: stacked_rows(tables) })
    } else {
        None
    }
}

/// Whether two rows bear the same key: the same cells in the columns `on`.
pub open spec fn same_key(one: Seq<CellView>, other: Seq<CellView>, on: Seq<int>) -> bool {
    pick(one, on) == pick(other, on)
}

/// Whether one of `rows` bears the key of `row`.
pub open spec fn holds_key(rows: Seq<Seq<CellView>>, row: Seq<CellView>, on: Seq<int>) -> bool {
    exists|k: int| 0 <= k < rows.len() && same_key(#[trigger] rows[k], row, on)
}

/// The rows without repeated keys: of rows that bear the same key the
/// first stays, where it is.
pub open spec fn first_of_each(rows: Seq<Seq<CellView>>, on: Seq<int>) -> Seq<Seq<CellView>>
    decreases rows.len(),
{
    if rows.len() == 0 {
        Seq::empty()
    } else {
        let before = first_of_each(rows.drop_last(), on);
        if holds_key(before, rows.last(), on) {
            before
        } else {
            before.push(rows.last())
        }
    }
}

/// The tables of a list as plain values.
pub open spec fn table_views(tables: Seq<Table>) -> Seq<TableView> {
    tables.map_values(|t: Table| t@)
}

/// A table of text cells.
#[derive(Debug)]
pub struct Table {
    names: Vec<String>,
    rows: Vec<Vec<Cell>>,
}

impl View for Table {
    type V = TableView;

    closed spec fn view(&self) -> TableView {
        TableView { names: texts_view(self.names@), rows: rows_view(self.rows@) }
    }
}

impl Table {
    #[verifier::type_invariant]
    spec fn rows_fit(&self) -> bool {
        forall|i: int| 0 <= i < self.rows@.len() ==> (#[trigger] self.rows@[i])@.len() == self.names@.len()
    }

    /// A table with the given columns and no rows.
    pub fn new(names: Vec<String>) -> (table: Table)
        ensures
            table@ == (TableView { names: texts_view(names@), rows: Seq::empty() }),
    {
        let table = Table { names, rows: Vec::new() };
        assert(table@.rows == Seq::<Seq<CellView>>::empty());
        table
    }

    /// A table with the given columns and rows that are known to fit them.
    pub(crate) fn from_rows(names: Vec<String>, rows: Vec<Vec<Cell>>) -> (table: Table)
        requires
            forall|i: int| 0 <= i < rows@.len() ==> (#[trigger] rows@[i])@.len() == names@.len(),
        ensures
            table@ == (TableView { names: texts_view(names@), rows: rows_view(rows@) }),
    {
        Table { names, rows }
    }

    /// The table without columns and without rows.
    pub fn empty() -> (table: Table)
        ensures
            table@ == TableView::empty(),
    {
        let table = Table { names: Vec::new(), rows: Vec::new() };
        assert(table@.rows == Seq::<Seq<CellView>>::empty());
        assert(table@.names == Seq::<Seq<char>>::empty());
        table
    }

    /// Number of rows.
    pub fn height(&self) -> (rows: usize)
        ensures
            rows == self@.rows.len(),
            self@.wf(),
    {
        proof {
            use_type_invariant(self);
        }
        self.rows.len()
    }

    /// Number of columns.
    pub fn width(&self) -> (columns: usize)
        ensures
            columns == self@.names.len(),
    {
        self.names.len()
    }

    /// The column names, left to right.
    pub fn column_names(&self) -> (names: Vec<String>)
        ensures
            texts_view(names@) == self@.names,
    {
        copy_texts(&self.names)
    }

    /// The rows, top to bottom.
    pub fn rows(&self) -> (rows: &Vec<Vec<Cell>>)
        ensures
            rows_view(rows@) == self@.rows,
            self@.wf(),
    {
        proof {
            use_type_invariant(self);
        }
        &self.rows
    }

    /// Adds a row at the bottom. A row that has not one cell per column is
    /// refused, and the table stays as it is.
    pub fn add_row(&mut self, row: Vec<Cell>) -> (done: Result<(), SsimError>)
        ensures
            done is Ok <==> row@.len() == old(self)@.names.len(),
            done is Ok ==> final(self)@ == (TableView {
                names: old(self)@.names,
                rows: old(self)@.rows.push(cells_view(row@)),
            }),
            done is Err ==> final(self)@ == old(self)@,
            done matches Err(e) ==> e is ColumnMismatch,
    {
        proof {
            use_type_invariant(&*self);
        }
        if row.len() != self.names.len() {
            return Err(SsimError::ColumnMismatch);
        }
        let mut taken = Table::empty();
        core::mem::swap(self, &mut taken);
        let Table { names, mut rows } = taken;
        proof {
            lemma_rows_push(rows@, row);
        }
        rows.push(row);
        *self = Table { names, rows };
        Ok(())
    }

    /// Adds a row that is known to have one cell per column.
    pub(crate) fn push_row(&mut self, row: Vec<Cell>)
        requires
            row@.len() == old(self)@.names.len(),
        ensures
            final(self)@ == (TableView {
                names: old(self)@.names,
                rows: old(self)@.rows.push(cells_view(row@)),
            }),
    {
        proof {
            use_type_invariant(&*self);
        }
        let mut taken = Table::empty();
        core::mem::swap(self, &mut taken);
        let Table { names, mut rows } = taken;
        proof {
            lemma_rows_push(rows@, row);
        }
        rows.push(row);
        *self = Table { names, rows };
    }

    /// The first column that bears `name`, if there is one.
    pub fn position(&self, name: &str) -> (at: Option<usize>)
        ensures
            match at {
                Some(i) => column_at(self@.names, name@) == Some(i as int),
                None => column_at(self@.names, name@) is None,
            },
    {
        let wanted = name.to_owned();
        let mut at: usize = 0;
        while at < self.names.len()
            invariant
                at <= self.names.len(),
                wanted@ == name@,
                forall|i: int| 0 <= i < at ==> texts_view(self.names@)[i] != name@,
            decreases self.names.len() - at,
        {
            if self.names[at] == wanted {
                proof {
                    assert(texts_view(self.names@)[at as int] == name@);
                    lemma_column_at(self@.names, name@);
                }
                return Some(at);
            }
            assert(texts_view(self.names@)[at as int] != name@);
            at = at + 1;
        }
        proof {
            lemma_column_at(self@.names, name@);
        }
        None
    }

    /// The columns that bear the names `wanted`, in that order; the first
    /// name that no column bears is reported.
    pub fn positions(&self, wanted: &Vec<String>) -> (found: Result<Vec<usize>, SsimError>)
        ensures
            match found {
                Ok(columns) => columns_at(self@.names, texts_view(wanted@)) == Some(
                    columns@.map_values(|c: usize| c as int),
                ) && forall|k: int| 0 <= k < columns@.len() ==> columns@[k] < self@.names.len(),
                Err(e) => columns_at(self@.names, texts_view(wanted@)) is None
                    && e is MissingColumn,
            },
    {
        let mut columns: Vec<usize> = Vec::new();
        let mut at: usize = 0;
        let ghost names = self@.names;
        let ghost all = texts_view(wanted@);
        proof {
            assert(all.take(0) == Seq::<Seq<char>>::empty());
            assert(columns@.map_values(|c: usize| c as int) == Seq::<int>::empty());
        }
        while at < wanted.len()
            invariant
                at <= wanted.len(),
                names == self@.names,
                all == texts_view(wanted@),
                columns_at(names, all.take(at as int)) == Some(
                    columns@.map_values(|c: usize| c as int),
                ),
                forall|k: int| 0 <= k < columns@.len() ==> columns@[k] < names.len(),
            decreases wanted.len() - at,
        {
            let ghost next = all.take(at as int + 1);
            proof {
                assert(next.drop_last() == all.take(at as int));
                assert(next.last() == wanted@[at as int]@);
            }
            match self.position(wanted[at].as_str()) {
                Some(column) => {
                    proof {
                        lemma_column_at(names, wanted@[at as int]@);
                        assert(columns@.push(column).map_values(|c: usize| c as int)
                            == columns@.map_values(|c: usize| c as int).push(column as int));
                    }
                    columns.push(column);
                },
                None => {
                    proof {
                        lemma_columns_at_missing(names, all, at as int + 1);
                    }
                    return Err(SsimError::MissingColumn(wanted[at].clone()));
                },
            }
            at = at + 1;
        }
        proof {
            assert(all.take(at as int) == all);
        }
        Ok(columns)
    }
}

/// A name that is missing among the first of a list is missing in the
/// whole list.
pub proof fn lemma_columns_at_missing(names: Seq<Seq<char>>, wanted: Seq<Seq<char>>, upto: int)
    requires
        0 <= upto <= wanted.len(),
        columns_at(names, wanted.take(upto)) is None,
    ensures
        columns_at(names, wanted) is None,
    decreases wanted.len(),
{
    if upto == wanted.len() {
        assert(wanted.take(upto) == wanted);
    } else {
        assert(wanted.drop_last().take(upto) == wanted.take(upto));
        lemma_columns_at_missing(names, wanted.drop_last(), upto);
    }
}

/// Column numbers as plain integers.
pub open spec fn as_ints(columns: Seq<usize>) -> Seq<int> {
    columns.map_values(|c: usize| c as int)
}

/// Whether all these columns exist in a row of the given width.
pub open spec fn columns_within(columns: Seq<usize>, width: nat) -> bool {
    forall|k: int| 0 <= k < columns.len() ==> (#[trigger] columns[k]) < width
}

/// A copy of a row.
fn copy_row(row: &Vec<Cell>) -> (copy: Vec<Cell>)
    ensures
        cells_view(copy@) == cells_view(row@),
{
    let mut copy: Vec<Cell> = Vec::new();
    let mut at: usize = 0;
    while at < row.len()
        invariant
            at <= row.len(),
            cells_view(copy@) == cells_view(row@).take(at as int),
        decreases row.len() - at,
    {
        let cell = copy_cell(&row[at]);
        proof {
            lemma_cells_push(copy@, cell);
            assert(cells_view(row@).take(at as int + 1) == cells_view(row@).take(at as int).push(
                row@[at as int]@,
            ));
        }
        copy.push(cell);
        at = at + 1;
    }
    assert(cells_view(row@).take(at as int) == cells_view(row@));
    copy
}

/// Adds to `row` copies of the cells of `from` that stand in `columns`.
fn extend_picked(row: &mut Vec<Cell>, from: &Vec<Cell>, columns: &Vec<usize>)
    requires
        columns_within(columns@, from@.len()),
    ensures
        cells_view(final(row)@) == cells_view(old(row)@) + pick(
            cells_view(from@),
            as_ints(columns@),
        ),
{
    let ghost start = cells_view(row@);
    let ghost wanted = pick(cells_view(from@), as_ints(columns@));
    let mut at: usize = 0;
    assert(start + wanted.take(0) == start);
    while at < columns.len()
        invariant
            at <= columns.len(),
            columns_within(columns@, from@.len()),
            wanted == pick(cells_view(from@), as_ints(columns@)),
            cells_view(row@) == start + wanted.take(at as int),
        decreases columns.len() - at,
    {
        let column = columns[at];
        let cell = copy_cell(&from[column]);
        proof {
            lemma_cells_push(row@, cell);
            assert(wanted[at as int] == cells_view(from@)[column as int]);
            assert(start + wanted.take(at as int + 1) == (start + wanted.take(at as int)).push(
                wanted[at as int],
            ));
        }
        row.push(cell);
        at = at + 1;
    }
    assert(wanted.take(at as int) == wanted);
}

/// Adds `count` empty cells to `row`.
fn extend_nulls(row: &mut Vec<Cell>, count: usize)
    ensures
        cells_view(final(row)@) == cells_view(old(row)@) + nulls(count as nat),
{
    let ghost start = cells_view(row@);
    let mut at: usize = 0;
    assert(start + nulls(0) == start);
    while at < count
        invariant
            at <= count,
            cells_view(row@) == start + nulls(at as nat),
        decreases count - at,
    {
        proof {
            lemma_cells_push(row@, Cell::Null);
            assert(start + nulls((at + 1) as nat) == (start + nulls(at as nat)).push(
                CellView::Null,
            ));
        }
        row.push(Cell::Null);
        at = at + 1;
    }
}

/// The texts of a row that stand in `columns`.
fn detail(row: &Vec<Cell>, columns: &Vec<usize>) -> (texts: Vec<String>)
    requires
        columns_within(columns@, row@.len()),
    ensures
        texts_view(texts@) == detail_of(cells_view(row@), as_ints(columns@)),
{
    let ghost wanted = detail_of(cells_view(row@), as_ints(columns@));
    let mut texts: Vec<String> = Vec::new();
    let mut at: usize = 0;
    assert(wanted.take(0) == Seq::<Seq<char>>::empty());
    while at < columns.len()
        invariant
            at <= columns.len(),
            columns_within(columns@, row@.len()),
            wanted == detail_of(cells_view(row@), as_ints(columns@)),
            texts_view(texts@) == wanted.take(at as int),
        decreases columns.len() - at,
    {
        let column = columns[at];
        let text = match &row[column] {
            Cell::Text(t) => t.clone(),
            _ => String::new(),
        };
        proof {
            lemma_texts_push(texts@, text);
            assert(wanted[at as int] == text_of(cells_view(row@)[column as int]));
            assert(wanted.take(at as int + 1) == wanted.take(at as int).push(wanted[at as int]));
        }
        texts.push(text);
        at = at + 1;
    }
    assert(wanted.take(at as int) == wanted);
    texts
}

/// Whether the key of a left row agrees with the key of a right row.
fn keys_match(
    left_row: &Vec<Cell>,
    left_on: &Vec<usize>,
    right_row: &Vec<Cell>,
    right_on: &Vec<usize>,
) -> (agree: bool)
    requires
        left_on@.len() == right_on@.len(),
        columns_within(left_on@, left_row@.len()),
        columns_within(right_on@, right_row@.len()),
    ensures
        agree == keys_agree(
            pick(cells_view(left_row@), as_ints(left_on@)),
            pick(cells_view(right_row@), as_ints(right_on@)),
        ),
{
    let ghost left_key = pick(cells_view(left_row@), as_ints(left_on@));
    let ghost right_key = pick(cells_view(right_row@), as_ints(right_on@));
    let mut at: usize = 0;
    while at < left_on.len()
        invariant
            at <= left_on.len(),
            left_on@.len() == right_on@.len(),
            columns_within(left_on@, left_row@.len()),
            columns_within(right_on@, right_row@.len()),
            left_key == pick(cells_view(left_row@), as_ints(left_on@)),
            right_key == pick(cells_view(right_row@), as_ints(right_on@)),
            forall|k: int| 0 <= k < at ==> (#[trigger] left_key[k]) is Text && right_key[k] == left_key[k],
        decreases left_on.len() - at,
    {
        let left_cell = &left_row[left_on[at]];
        let right_cell = &right_row[right_on[at]];
        proof {
            assert(left_key[at as int] == left_cell@);
            assert(right_key[at as int] == right_cell@);
        }
        let same = match left_cell {
            Cell::Text(a) => match right_cell {
                Cell::Text(b) => *a == *b,
                _ => false,
            },
            _ => false,
        };
        if !same {
            return false;
        }
        at = at + 1;
    }
    true
}

impl Table {
    /// The rows of a left join of `self` with `right`, under the given column
    /// names.
    fn join_on(
        &self,
        right: &Table,
        left_on: &Vec<usize>,
        right_on: &Vec<usize>,
        take: &Vec<usize>,
        names: Vec<String>,
        gather: bool,
    ) -> (out: Table)
        requires
            left_on@.len() == right_on@.len(),
            columns_within(left_on@, self@.names.len()),
            columns_within(right_on@, right@.names.len()),
            columns_within(take@, right@.names.len()),
            names@.len() == if gather {
                self@.names.len() + 1
            } else {
                self@.names.len() + take@.len()
            },
        ensures
            out@ == (TableView {
                names: texts_view(names@),
                rows: joined_rows(
                    self@.rows,
                    as_ints(left_on@),
                    right@.rows,
                    as_ints(right_on@),
                    as_ints(take@),
                    gather,
                ),
            }),
    {
        proof {
            use_type_invariant(self);
            use_type_invariant(right);
        }
        let ghost lon = as_ints(left_on@);
        let ghost ron = as_ints(right_on@);
        let ghost taken = as_ints(take@);
        let ghost left_rows = self@.rows;
        let ghost right_rows = right@.rows;
        let index = KeyIndex::build(&right.rows, right_on);
        let ghost chains = chains_of(right_rows, ron, index.count as nat);
        let mut rows: Vec<Vec<Cell>> = Vec::new();
        let mut i: usize = 0;
        proof {
            assert(left_rows.take(0) == Seq::<Seq<CellView>>::empty());
            assert(rows_view(rows@) == Seq::<Seq<CellView>>::empty());
        }
        while i < self.rows.len()
            invariant
                i <= self.rows.len(),
                index.covers(right_rows, ron),
                chains == chains_of(right_rows, ron, index.count as nat),
                left_on@.len() == right_on@.len(),
                columns_within(left_on@, self.names@.len()),
                columns_within(right_on@, right.names@.len()),
                columns_within(take@, right.names@.len()),
                forall|r: int|
                    0 <= r < self.rows@.len() ==> (#[trigger] self.rows@[r])@.len()
                        == self.names@.len(),
                forall|r: int|
                    0 <= r < right.rows@.len() ==> (#[trigger] right.rows@[r])@.len()
                        == right.names@.len(),
                lon == as_ints(left_on@),
                ron == as_ints(right_on@),
                taken == as_ints(take@),
                left_rows == rows_view(self.rows@),
                right_rows == rows_view(right.rows@),
                names@.len() == if gather {
                    self.names@.len() + 1
                } else {
                    self.names@.len() + take@.len()
                },
                rows_view(rows@) == joined_rows(
                    left_rows.take(i as int),
                    lon,
                    right_rows,
                    ron,
                    taken,
                    gather,
                ),
                forall|r: int| 0 <= r < rows@.len() ==> (#[trigger] rows@[r])@.len() == names@.len(),
            decreases self.rows.len() - i,
        {
            let left_row = &self.rows[i];
            let ghost left_view = cells_view(left_row@);
            let ghost done = rows_view(rows@);
            let mut details: Vec<Vec<String>> = Vec::new();
            let mut found = false;
            let code = code_of_key(left_row, left_on);
            let ghost chain = (code as nat % index.count as nat) as int;
            let mut j: usize = index.first(code);
            proof {
                assert(left_rows[i as int] == left_view);
                assert(right_rows.take(0) == Seq::<Seq<CellView>>::empty());
                assert(nested_view(details@) == Seq::<Seq<Seq<char>>>::empty());
                assert(done + Seq::<Seq<CellView>>::empty() == done);
                lemma_first_from(chains, chain, 0);
                assert forall|r: int| 0 <= r < j implies !keys_agree(
                    pick(left_view, lon),
                    pick(#[trigger] right_rows[r], ron),
                ) by {
                    if keys_agree(pick(left_view, lon), pick(right_rows[r], ron)) {
                        lemma_agreeing_keys_share_code(
                            pick(left_view, lon),
                            pick(right_rows[r], ron),
                        );
                        assert(chains[r] == chain);
                    }
                }
                lemma_no_partners_between(left_view, lon, right_rows, ron, 0, j as int);
            }
            while j < right.rows.len()
                invariant
                    j <= right.rows.len(),
                    i < self.rows.len(),
                    left_row == &self.rows@[i as int],
                    left_view == cells_view(left_row@),
                    left_row@.len() == self.names@.len(),
                    left_on@.len() == right_on@.len(),
                    columns_within(left_on@, self.names@.len()),
                    columns_within(right_on@, right.names@.len()),
                    columns_within(take@, right.names@.len()),
                    forall|r: int|
                        0 <= r < right.rows@.len() ==> (#[trigger] right.rows@[r])@.len()
                            == right.names@.len(),
                    lon == as_ints(left_on@),
                    ron == as_ints(right_on@),
                    taken == as_ints(take@),
                    right_rows == rows_view(right.rows@),
                    index.covers(right_rows, ron),
                    chains == chains_of(right_rows, ron, index.count as nat),
                    chain == (key_code(pick(left_view, lon)) % index.count as nat) as int,
                    j < right.rows.len() ==> chains[j as int] == chain,
                    names@.len() == if gather {
                        self.names@.len() + 1
                    } else {
                        self.names@.len() + take@.len()
                    },
                    found == (partners(left_view, lon, right_rows.take(j as int), ron).len() > 0),
                    gather ==> rows_view(rows@) == done,
                    gather ==> nested_view(details@) == partners(
                        left_view,
                        lon,
                        right_rows.take(j as int),
                        ron,
                    ).map_values(|r: Seq<CellView>| detail_of(r, taken)),
                    !gather ==> rows_view(rows@) == done + partners(
                        left_view,
                        lon,
                        right_rows.take(j as int),
                        ron,
                    ).map_values(|r: Seq<CellView>| left_view + pick(r, taken)),
                    forall|r: int|
                        0 <= r < rows@.len() ==> (#[trigger] rows@[r])@.len() == names@.len(),
                decreases right.rows.len() - j,
            {
                let right_row = &right.rows[j];
                let ghost before = partners(left_view, lon, right_rows.take(j as int), ron);
                proof {
                    assert(right_rows.take(j as int + 1).drop_last() == right_rows.take(j as int));
                    assert(right_rows.take(j as int + 1).last() == cells_view(right_row@));
                }
                if keys_match(left_row, left_on, right_row, right_on) {
                    found = true;
                    if gather {
                        let item = detail(right_row, take);
                        proof {
                            lemma_nested_push(details@, item);
                            assert(before.push(cells_view(right_row@)).map_values(
                                |r: Seq<CellView>| detail_of(r, taken),
                            ) == before.map_values(|r: Seq<CellView>| detail_of(r, taken)).push(
                                detail_of(cells_view(right_row@), taken),
                            ));
                        }
                        details.push(item);
                    } else {
                        let mut row = copy_row(left_row);
                        extend_picked(&mut row, right_row, take);
                        proof {
                            assert(cells_view(row@).len() == row@.len());
                            assert(cells_view(left_row@).len() == left_row@.len());
                            assert(pick(cells_view(right_row@), taken).len() == take@.len());
                            lemma_rows_push(rows@, row);
                            assert(before.push(cells_view(right_row@)).map_values(
                                |r: Seq<CellView>| left_view + pick(r, taken),
                            ) == before.map_values(|r: Seq<CellView>| left_view + pick(r, taken)).push(
                                left_view + pick(cells_view(right_row@), taken),
                            ));
                            assert(done + before.map_values(
                                |r: Seq<CellView>| left_view + pick(r, taken),
                            ).push(left_view + pick(cells_view(right_row@), taken)) == (done
                                + before.map_values(
                                |r: Seq<CellView>| left_view + pick(r, taken),
                            )).push(left_view + pick(cells_view(right_row@), taken)));
                        }
                        rows.push(row);
                    }
                }
                let onward = index.next[j];
                proof {
                    lemma_first_from(chains, chain, j as int + 1);
                    assert forall|r: int| j < r < onward implies !keys_agree(
                        pick(left_view, lon),
                        pick(#[trigger] right_rows[r], ron),
                    ) by {
                        if keys_agree(pick(left_view, lon), pick(right_rows[r], ron)) {
                            lemma_agreeing_keys_share_code(
                                pick(left_view, lon),
                                pick(right_rows[r], ron),
                            );
                            assert(chains[r] == chain);
                        }
                    }
                    lemma_no_partners_between(
                        left_view,
                        lon,
                        right_rows,
                        ron,
                        j as int + 1,
                        onward as int,
                    );
                }
                j = onward;
            }
            proof {
                assert(j == right.rows@.len());
                assert(right_rows.take(j as int) == right_rows);
                assert(left_rows.take(i as int + 1).drop_last() == left_rows.take(i as int));
                assert(left_rows.take(i as int + 1).last() == left_view);
            }
            let ghost all = partners(left_view, lon, right_rows, ron);
            if gather {
                let mut row = copy_row(left_row);
                let cell = if details.len() == 0 {
                    Cell::Null
                } else {
                    Cell::Nested(details)
                };
                proof {
                    lemma_cells_push(row@, cell);
                    assert(all.map_values(|r: Seq<CellView>| detail_of(r, taken)).len()
                        == all.len());
                }
                row.push(cell);
                proof {
                    assert(cells_view(row@).len() == row@.len());
                    assert(cells_view(left_row@).len() == left_row@.len());
                    lemma_rows_push(rows@, row);
                    assert(done.push(cells_view(row@)) == done + gathered_for(
                        left_view,
                        all,
                        taken,
                    ));
                }
                rows.push(row);
            } else if !found {
                let mut row = copy_row(left_row);
                extend_nulls(&mut row, take.len());
                proof {
                    assert(cells_view(row@).len() == row@.len());
                    assert(cells_view(left_row@).len() == left_row@.len());
                    lemma_rows_push(rows@, row);
                    assert(all.len() == 0);
                    assert(done.push(cells_view(row@)) == done + joined_for(left_view, all, taken));
                    assert(all.map_values(|r: Seq<CellView>| left_view + pick(r, taken))
                        == Seq::<Seq<CellView>>::empty());
                }
                rows.push(row);
            } else {
                proof {
                    assert(all.len() > 0);
                }
            }
            i = i + 1;
        }
        proof {
            assert(left_rows.take(i as int) == left_rows);
        }
        Table { names, rows }
    }
}

/// The name of the column to gather into, as plain values.
pub open spec fn name_view(name: Option<&str>) -> Option<Seq<char>> {
    match name {
        Some(n) => Some(n@),
        None => None,
    }
}

/// `columns_at` gives one column per name.
pub proof fn lemma_columns_at_len(names: Seq<Seq<char>>, wanted: Seq<Seq<char>>)
    ensures
        columns_at(names, wanted) matches Some(found) ==> found.len() == wanted.len(),
    decreases wanted.len(),
{
    if wanted.len() > 0 {
        lemma_columns_at_len(names, wanted.drop_last());
    }
}

/// Whether `name` is one of the texts of `list`.
fn is_listed(name: &String, list: &Vec<String>) -> (listed: bool)
    ensures
        listed == texts_view(list@).contains(name@),
{
    let mut at: usize = 0;
    while at < list.len()
        invariant
            at <= list.len(),
            forall|k: int| 0 <= k < at ==> texts_view(list@)[k] != name@,
        decreases list.len() - at,
    {
        if list[at] == *name {
            assert(texts_view(list@)[at as int] == name@);
            return true;
        }
        at = at + 1;
    }
    false
}

/// Whether two rows bear the same key.
fn keys_same(one: &Vec<Cell>, other: &Vec<Cell>, on: &Vec<usize>) -> (same: bool)
    requires
        columns_within(on@, one@.len() as nat),
        columns_within(on@, other@.len() as nat),
    ensures
        same == same_key(cells_view(one@), cells_view(other@), as_ints(on@)),
{
    let ghost left = pick(cells_view(one@), as_ints(on@));
    let ghost right = pick(cells_view(other@), as_ints(on@));
    let mut at: usize = 0;
    while at < on.len()
        invariant
            at <= on.len(),
            columns_within(on@, one@.len() as nat),
            columns_within(on@, other@.len() as nat),
            left == pick(cells_view(one@), as_ints(on@)),
            right == pick(cells_view(other@), as_ints(on@)),
            forall|k: int| 0 <= k < at ==> left[k] == right[k],
        decreases on.len() - at,
    {
        proof {
            assert(left[at as int] == one@[on@[at as int] as int]@);
            assert(right[at as int] == other@[on@[at as int] as int]@);
        }
        if !same_cell(&one[on[at]], &other[on[at]]) {
            return false;
        }
        at = at + 1;
    }
    assert(left =~= right);
    true
}

/// Whether one of `rows` bears the key of `row`.
fn key_is_held(rows: &Vec<Vec<Cell>>, row: &Vec<Cell>, on: &Vec<usize>) -> (held: bool)
    requires
        columns_within(on@, row@.len() as nat),
        forall|k: int| 0 <= k < rows@.len() ==> columns_within(on@, (#[trigger] rows@[k])@.len() as nat),
    ensures
        held == holds_key(rows_view(rows@), cells_view(row@), as_ints(on@)),
{
    let mut at: usize = 0;
    while at < rows.len()
        invariant
            at <= rows.len(),
            columns_within(on@, row@.len() as nat),
            forall|k: int|
                0 <= k < rows@.len() ==> columns_within(on@, (#[trigger] rows@[k])@.len() as nat),
            forall|k: int|
                0 <= k < at ==> !same_key(
                    #[trigger] rows_view(rows@)[k],
                    cells_view(row@),
                    as_ints(on@),
                ),
        decreases rows.len() - at,
    {
        proof {
            assert(rows_view(rows@)[at as int] == cells_view(rows@[at as int]@));
        }
        if keys_same(&rows[at], row, on) {
            return true;
        }
        at = at + 1;
    }
    false
}

impl Table {
    /// Joins `right` to this table, row by row from the left.
    ///
    /// Both tables must have the columns named `on`, and `right` those named
    /// `take`; the first name that is missing is reported. Every left row
    /// stays. Its partners are the right rows, top to bottom, that agree
    /// with it in every `on` column. Without `gather_into` it gives one row
    /// per partner, followed by the partner's `take` cells, or one row
    /// followed by empty cells when it has none. With `gather_into` it
    /// gives one row, followed by one cell of that name that holds the
    /// `take` texts of all its partners.
    pub fn left_join(
        &self,
        right: &Table,
        on: &Vec<String>,
        take: &Vec<String>,
        gather_into: Option<&str>,
    ) -> (joined: Result<Table, SsimError>)
        ensures
            match joined {
                Ok(table) => left_join_of(
                    self@,
                    right@,
                    texts_view(on@),
                    texts_view(take@),
                    name_view(gather_into),
                ) == Some(table@),
                Err(e) => left_join_of(
                    self@,
                    right@,
                    texts_view(on@),
                    texts_view(take@),
                    name_view(gather_into),
                ) is None && e is MissingColumn,
            },
    {
        proof {
            lemma_columns_at_len(self@.names, texts_view(on@));
            lemma_columns_at_len(right@.names, texts_view(on@));
            lemma_columns_at_len(right@.names, texts_view(take@));
        }
        let left_on = match self.positions(on) {
            Ok(columns) => columns,
            Err(e) => {
                return Err(e);
            },
        };
        let right_on = match right.positions(on) {
            Ok(columns) => columns,
            Err(e) => {
                return Err(e);
            },
        };
        let taken = match right.positions(take) {
            Ok(columns) => columns,
            Err(e) => {
                return Err(e);
            },
        };
        let mut names = copy_texts(&self.names);
        let ghost left_names = texts_view(names@);
        match gather_into {
            Some(name) => {
                let owned = name.to_owned();
                proof {
                    lemma_texts_push(names@, owned);
                }
                names.push(owned);
                assert(texts_view(names@).len() == names@.len());
            },
            None => {
                let mut at: usize = 0;
                assert(left_names + texts_view(take@).take(0) == left_names);
                while at < take.len()
                    invariant
                        at <= take.len(),
                        texts_view(names@) == left_names + texts_view(take@).take(at as int),
                    decreases take.len() - at,
                {
                    let name = take[at].clone();
                    proof {
                        lemma_texts_push(names@, name);
                        assert(left_names + texts_view(take@).take(at as int + 1) == (left_names
                            + texts_view(take@).take(at as int)).push(take@[at as int]@));
                    }
                    names.push(name);
                    at = at + 1;
                }
                assert(texts_view(take@).take(at as int) == texts_view(take@));
                assert(texts_view(names@).len() == names@.len());
            },
        }
        assert(as_ints(left_on@).len() == as_ints(right_on@).len());
        Ok(self.join_on(right, &left_on, &right_on, &taken, names, gather_into.is_some()))
    }

    /// This table without the columns that bear one of the names `dropped`.
    pub fn without_columns(&self, dropped: &Vec<String>) -> (out: Table)
        ensures
            out@ == projected(self@, columns_kept(self@.names, texts_view(dropped@))),
    {
        proof {
            use_type_invariant(self);
        }
        let ghost all = self@.names;
        let ghost gone = texts_view(dropped@);
        let mut kept: Vec<usize> = Vec::new();
        let mut names: Vec<String> = Vec::new();
        let mut at: usize = 0;
        proof {
            assert(all.take(0) == Seq::<Seq<char>>::empty());
            assert(as_ints(kept@) == Seq::<int>::empty());
            assert(texts_view(names@) == pick_names(all, as_ints(kept@)));
        }
        while at < self.names.len()
            invariant
                at <= self.names.len(),
                all == texts_view(self.names@),
                gone == texts_view(dropped@),
                as_ints(kept@) == columns_kept(all.take(at as int), gone),
                columns_within(kept@, at as nat),
                texts_view(names@) == pick_names(all, as_ints(kept@)),
            decreases self.names.len() - at,
        {
            proof {
                assert(all.take(at as int + 1).drop_last() == all.take(at as int));
                assert(all.take(at as int + 1).last() == self.names@[at as int]@);
            }
            if !is_listed(&self.names[at], dropped) {
                let name = self.names[at].clone();
                proof {
                    lemma_texts_push(names@, name);
                    assert(as_ints(kept@.push(at)) == as_ints(kept@).push(at as int));
                    assert(pick_names(all, as_ints(kept@).push(at as int)) == pick_names(
                        all,
                        as_ints(kept@),
                    ).push(all[at as int]));
                }
                kept.push(at);
                names.push(name);
            }
            at = at + 1;
        }
        proof {
            assert(all.take(at as int) == all);
        }
        let ghost columns = as_ints(kept@);
        let mut rows: Vec<Vec<Cell>> = Vec::new();
        let mut r: usize = 0;
        proof {
            assert(self@.rows.take(0) == Seq::<Seq<CellView>>::empty());
            assert(rows_view(rows@) == self@.rows.take(0).map_values(
                |row: Seq<CellView>| pick(row, columns),
            ));
        }
        while r < self.rows.len()
            invariant
                r <= self.rows.len(),
                columns == as_ints(kept@),
                columns_within(kept@, self.names@.len() as nat),
                names@.len() == kept@.len(),
                forall|k: int|
                    0 <= k < self.rows@.len() ==> (#[trigger] self.rows@[k])@.len()
                        == self.names@.len(),
                rows_view(rows@) == rows_view(self.rows@).take(r as int).map_values(
                    |row: Seq<CellView>| pick(row, columns),
                ),
                forall|k: int| 0 <= k < rows@.len() ==> (#[trigger] rows@[k])@.len() == names@.len(),
            decreases self.rows.len() - r,
        {
            let mut row: Vec<Cell> = Vec::new();
            extend_picked(&mut row, &self.rows[r], &kept);
            proof {
                let source = rows_view(self.rows@);
                assert(cells_view(row@) == pick(source[r as int], columns));
                assert(cells_view(row@).len() == row@.len());
                lemma_rows_push(rows@, row);
                assert(source.take(r as int + 1).map_values(
                    |row: Seq<CellView>| pick(row, columns),
                ) == source.take(r as int).map_values(|row: Seq<CellView>| pick(row, columns)).push(
                    pick(source[r as int], columns),
                ));
            }
            rows.push(row);
            r = r + 1;
        }
        proof {
            assert(rows_view(self.rows@).take(r as int) == rows_view(self.rows@));
        }
        Table { names, rows }
    }

    /// Stacks tables into one: the columns of the first, the rows of all, in
    /// order. No tables give the empty table. Tables whose columns differ
    /// from those of the first cannot be stacked.
    pub fn stack(tables: Vec<Table>) -> (out: Result<Table, SsimError>)
        ensures
            match out {
                Ok(table) => stacked(table_views(tables@)) == Some(table@),
                Err(e) => stacked(table_views(tables@)) is None && e is ColumnMismatch,
            },
    {
        if tables.len() == 0 {
            return Ok(Table::empty());
        }
        let ghost all = tables@;
        let ghost views = table_views(all);
        let names = copy_texts(&tables[0].names);
        let mut at: usize = 0;
        while at < tables.len()
            invariant
                at <= tables.len(),
                all == tables@,
                views == table_views(all),
                all.len() > 0,
                texts_view(names@) == views[0].names,
                forall|k: int| 0 <= k < at ==> (#[trigger] views[k]).names == views[0].names,
            decreases tables.len() - at,
        {
            proof {
                assert(views[at as int] == tables@[at as int]@);
            }
            if !same_texts(&tables[at].names, &names) {
                return Err(SsimError::ColumnMismatch);
            }
            at = at + 1;
        }
        // The tables are taken from the end of a list; turned round, the
        // list gives them in order.
        let mut tables = tables;
        let mut turned: Vec<Table> = Vec::new();
        while tables.len() > 0
            invariant
                tables@.len() + turned@.len() == all.len(),
                tables@ == all.take(tables@.len() as int),
                forall|i: int|
                    0 <= i < turned@.len() ==> (#[trigger] turned@[i]) == all[all.len() - 1 - i],
            decreases tables.len(),
        {
            let ghost left = tables@.len();
            match tables.pop() {
                Some(table) => {
                    turned.push(table);
                    assert(tables@ == all.take(left - 1));
                },
                None => {},
            }
        }
        let mut rows: Vec<Vec<Cell>> = Vec::new();
        proof {
            assert(views.take(0) == Seq::<TableView>::empty());
            assert(rows_view(rows@) == stacked_rows(views.take(0)));
            assert(names@.len() == texts_view(names@).len());
        }
        while turned.len() > 0
            invariant
                turned@.len() <= all.len(),
                views == table_views(all),
                all.len() > 0,
                texts_view(names@) == views[0].names,
                names@.len() == views[0].names.len(),
                forall|k: int| 0 <= k < all.len() ==> (#[trigger] views[k]).names == views[0].names,
                forall|i: int|
                    0 <= i < turned@.len() ==> (#[trigger] turned@[i]) == all[all.len() - 1 - i],
                rows_view(rows@) == stacked_rows(views.take(all.len() - turned@.len())),
                forall|k: int| 0 <= k < rows@.len() ==> (#[trigger] rows@[k])@.len() == names@.len(),
            decreases turned.len(),
        {
            let ghost next = all.len() - turned@.len();
            match turned.pop() {
                Some(table) => {
                    proof {
                        use_type_invariant(&table);
                        assert(table == all[next]);
                        assert(views[next] == table@);
                        assert(views.take(next + 1).drop_last() == views.take(next));
                        assert(views.take(next + 1).last() == table@);
                        assert(table.names@.len() == texts_view(table.names@).len());
                    }
                    let Table { names: _, rows: mut piece } = table;
                    proof {
                        lemma_rows_concat(rows@, piece@);
                    }
                    rows.append(&mut piece);
                },
                None => {},
            }
        }
        proof {
            assert(views.take(all.len() as int) == views);
        }
        Ok(Table { names, rows })
    }

    /// This table without repeated keys: of rows that hold the same cells in
    /// the columns named `on`, the first stays, where it is. The first name
    /// that no column bears is reported.
    pub fn unique_by(&self, on: &Vec<String>) -> (out: Result<Table, SsimError>)
        ensures
            match out {
                Ok(table) => columns_at(self@.names, texts_view(on@)) matches Some(columns)
                    && table@ == (TableView {
                    names: self@.names,
                    rows: first_of_each(self@.rows, columns),
                }),
                Err(e) => columns_at(self@.names, texts_view(on@)) is None && e is MissingColumn,
            },
    {
        proof {
            use_type_invariant(self);
        }
        let columns = match self.positions(on) {
            Ok(columns) => columns,
            Err(e) => {
                return Err(e);
            },
        };
        let ghost keys = as_ints(columns@);
        let names = copy_texts(&self.names);
        let ghost source = rows_view(self.rows@);
        let mut rows: Vec<Vec<Cell>> = Vec::new();
        let mut at: usize = 0;
        proof {
            assert(source.take(0) == Seq::<Seq<CellView>>::empty());
            assert(rows_view(rows@) == first_of_each(source.take(0), keys));
            assert(names@.len() == texts_view(names@).len());
            assert(self.names@.len() == texts_view(self.names@).len());
        }
        while at < self.rows.len()
            invariant
                at <= self.rows.len(),
                source == rows_view(self.rows@),
                keys == as_ints(columns@),
                names@.len() == self.names@.len(),
                columns_within(columns@, self.names@.len() as nat),
                forall|k: int|
                    0 <= k < self.rows@.len() ==> (#[trigger] self.rows@[k])@.len()
                        == self.names@.len(),
                rows_view(rows@) == first_of_each(source.take(at as int), keys),
                forall|k: int| 0 <= k < rows@.len() ==> (#[trigger] rows@[k])@.len() == names@.len(),
            decreases self.rows.len() - at,
        {
            proof {
                assert(source.take(at as int + 1).drop_last() == source.take(at as int));
                assert(source.take(at as int + 1).last() == cells_view(self.rows@[at as int]@));
            }
            if !key_is_held(&rows, &self.rows[at], &columns) {
                let row = copy_row(&self.rows[at]);
                proof {
                    assert(cells_view(row@).len() == row@.len());
                    assert(cells_view(self.rows@[at as int]@).len() == self.rows@[at as int]@.len());
                    lemma_rows_push(rows@, row);
                }
                rows.push(row);
            }
            at = at + 1;
        }
        proof {
            assert(source.take(at as int) == source);
        }
        Ok(Table { names, rows })
    }
}

/// A name that some column bears is found.
pub proof fn lemma_column_found(names: Seq<Seq<char>>, name: Seq<char>, at: int)
    requires
        0 <= at < names.len(),
        names[at] == name,
    ensures
        column_at(names, name) is Some,
{
    lemma_column_at(names, name);
}

/// Names that are each found are found together.
pub proof fn lemma_columns_found(names: Seq<Seq<char>>, wanted: Seq<Seq<char>>)
    requires
        forall|k: int| 0 <= k < wanted.len() ==> column_at(names, #[trigger] wanted[k]) is Some,
    ensures
        columns_at(names, wanted) is Some,
    decreases wanted.len(),
{
    if wanted.len() > 0 {
        assert forall|k: int| 0 <= k < wanted.drop_last().len() implies column_at(
            names,
            #[trigger] wanted.drop_last()[k],
        ) is Some by {
            assert(wanted.drop_last()[k] == wanted[k]);
        }
        lemma_columns_found(names, wanted.drop_last());
        assert(column_at(names, wanted[wanted.len() - 1]) is Some);
    }
}

/// A column that is not dropped is still there afterwards, under its name.
pub proof fn lemma_kept_column_found(names: Seq<Seq<char>>, dropped: Seq<Seq<char>>, at: int)
    requires
        0 <= at < names.len(),
        !dropped.contains(names[at]),
    ensures
        column_at(pick_names(names, columns_kept(names, dropped)), names[at]) is Some,
{
    lemma_kept_columns(names, dropped, at);
    let kept = columns_kept(names, dropped);
    let where_ = choose|j: int| 0 <= j < kept.len() && kept[j] == at;
    lemma_column_found(pick_names(names, kept), names[at], where_);
}

/// The kept columns exist, and every column that is not dropped is among
/// them.
pub proof fn lemma_kept_columns(names: Seq<Seq<char>>, dropped: Seq<Seq<char>>, at: int)
    requires
        0 <= at < names.len(),
        !dropped.contains(names[at]),
    ensures
        exists|j: int|
            0 <= j < columns_kept(names, dropped).len() && #[trigger] columns_kept(
                names,
                dropped,
            )[j] == at,
    decreases names.len(),
{
    let kept = columns_kept(names, dropped);
    if at == names.len() - 1 {
        assert(kept[kept.len() - 1] == at);
    } else {
        let head = names.drop_last();
        assert(head[at] == names[at]);
        lemma_kept_columns(head, dropped, at);
        let shorter = columns_kept(head, dropped);
        let j = choose|j: int| 0 <= j < shorter.len() && shorter[j] == at;
        assert(kept[j] == at);
    }
}

/// Whether no two names of a list are the same.
pub open spec fn no_repeats(names: Seq<Seq<char>>) -> bool {
    forall|i: int, j: int| 0 <= i < j < names.len() ==> names[i] != names[j]
}

/// Where only the last columns of a table are dropped, the first ones are
/// kept, as they stand.
pub proof fn lemma_kept_is_prefix(names: Seq<Seq<char>>, dropped: Seq<Seq<char>>, count: int)
    requires
        0 <= count <= names.len(),
        forall|i: int| 0 <= i < count ==> !dropped.contains(#[trigger] names[i]),
        forall|i: int| count <= i < names.len() ==> dropped.contains(#[trigger] names[i]),
    ensures
        columns_kept(names, dropped) == Seq::new(count as nat, |i: int| i),
        pick_names(names, columns_kept(names, dropped)) == names.take(count),
    decreases names.len(),
{
    if names.len() > 0 {
        let head = names.drop_last();
        if count == names.len() {
            assert(!dropped.contains(names[count - 1]));
            lemma_kept_is_prefix(head, dropped, count - 1);
            assert(columns_kept(names, dropped) == Seq::new(count as nat, |i: int| i));
        } else {
            assert(dropped.contains(names[names.len() - 1]));
            lemma_kept_is_prefix(head, dropped, count);
        }
    }
    assert(pick_names(names, Seq::new(count as nat, |i: int| i)) == names.take(count));
}

/// Two rows bear the same key in their first two columns just when they
/// agree in both.
pub proof fn lemma_same_key_in_two(one: Seq<CellView>, other: Seq<CellView>)
    ensures
        same_key(one, other, seq![0int, 1int]) <==> one[0] == other[0] && one[1] == other[1],
{
    let on = seq![0int, 1int];
    assert(pick(one, on)[0] == one[0]);
    assert(pick(one, on)[1] == one[1]);
    assert(pick(other, on)[0] == other[0]);
    assert(pick(other, on)[1] == other[1]);
    if one[0] == other[0] && one[1] == other[1] {
        assert(pick(one, on) =~= pick(other, on));
    }
}

/// Among the rows without repeated keys every key stands once: no two of
/// them bear the same key, each of them is one of the rows, and the key of
/// every row is borne by one of them.
pub proof fn lemma_first_of_each(rows: Seq<Seq<CellView>>, on: Seq<int>)
    ensures
        forall|i: int, j: int|
            0 <= i < j < first_of_each(rows, on).len() ==> !same_key(
                first_of_each(rows, on)[i],
                first_of_each(rows, on)[j],
                on,
            ),
        forall|i: int|
            0 <= i < first_of_each(rows, on).len() ==> rows.contains(
                #[trigger] first_of_each(rows, on)[i],
            ),
        forall|k: int|
            0 <= k < rows.len() ==> holds_key(first_of_each(rows, on), #[trigger] rows[k], on),
    decreases rows.len(),
{
    if rows.len() > 0 {
        let head = rows.drop_last();
        let last = rows.last();
        let before = first_of_each(head, on);
        let after = first_of_each(rows, on);
        lemma_first_of_each(head, on);
        assert forall|i: int| 0 <= i < after.len() implies rows.contains(#[trigger] after[i]) by {
            if i < before.len() {
                assert(after[i] == before[i]);
                assert(head.contains(before[i]));
                let k = choose|k: int| 0 <= k < head.len() && head[k] == before[i];
                assert(rows[k] == after[i]);
            } else {
                assert(rows[rows.len() - 1] == after[i]);
            }
        }
        assert forall|k: int| 0 <= k < rows.len() implies holds_key(
            after,
            #[trigger] rows[k],
            on,
        ) by {
            if k < head.len() {
                assert(head[k] == rows[k]);
                assert(holds_key(before, head[k], on));
                let at = choose|at: int|
                    0 <= at < before.len() && same_key(#[trigger] before[at], head[k], on);
                assert(after[at] == before[at]);
            } else if holds_key(before, last, on) {
                let at = choose|at: int|
                    0 <= at < before.len() && same_key(#[trigger] before[at], last, on);
                assert(after[at] == before[at]);
            } else {
                assert(same_key(after[after.len() - 1], last, on));
            }
        }
        assert forall|i: int, j: int| 0 <= i < j < after.len() implies !same_key(
            after[i],
            after[j],
            on,
        ) by {
            if j < before.len() {
                assert(after[i] == before[i] && after[j] == before[j]);
            } else {
                assert(after[i] == before[i]);
                assert(after[j] == last);
            }
        }
    }
}

/// The partners among two runs of rows are the partners among the first
/// run followed by the partners among the second.
pub proof fn lemma_partners_concat(
    left_row: Seq<CellView>,
    left_on: Seq<int>,
    first: Seq<Seq<CellView>>,
    second: Seq<Seq<CellView>>,
    right_on: Seq<int>,
)
    ensures
        partners(left_row, left_on, first + second, right_on) == partners(
            left_row,
            left_on,
            first,
            right_on,
        ) + partners(left_row, left_on, second, right_on),
    decreases second.len(),
{
    if second.len() == 0 {
        assert(first + second == first);
    } else {
        lemma_partners_concat(left_row, left_on, first, second.drop_last(), right_on);
        assert((first + second).drop_last() == first + second.drop_last());
        assert((first + second).last() == second.last());
    }
}

/// Joining two runs of left rows gives the rows of the first run followed
/// by the rows of the second.
pub proof fn lemma_joined_rows_concat(
    first: Seq<Seq<CellView>>,
    second: Seq<Seq<CellView>>,
    left_on: Seq<int>,
    right_rows: Seq<Seq<CellView>>,
    right_on: Seq<int>,
    take: Seq<int>,
    gather: bool,
)
    ensures
        joined_rows(first + second, left_on, right_rows, right_on, take, gather) == joined_rows(
            first,
            left_on,
            right_rows,
            right_on,
            take,
            gather,
        ) + joined_rows(second, left_on, right_rows, right_on, take, gather),
    decreases second.len(),
{
    if second.len() == 0 {
        assert(first + second == first);
    } else {
        lemma_joined_rows_concat(
            first,
            second.drop_last(),
            left_on,
            right_rows,
            right_on,
            take,
            gather,
        );
        assert((first + second).drop_last() == first + second.drop_last());
        assert((first + second).last() == second.last());
    }
}

/// A join depends on the right rows only through the partners that each
/// left row finds among them.
pub proof fn lemma_joined_rows_same_partners(
    left_rows: Seq<Seq<CellView>>,
    left_on: Seq<int>,
    one: Seq<Seq<CellView>>,
    other: Seq<Seq<CellView>>,
    right_on: Seq<int>,
    take: Seq<int>,
    gather: bool,
)
    requires
        forall|k: int|
            0 <= k < left_rows.len() ==> partners(#[trigger] left_rows[k], left_on, one, right_on)
                == partners(left_rows[k], left_on, other, right_on),
    ensures
        joined_rows(left_rows, left_on, one, right_on, take, gather) == joined_rows(
            left_rows,
            left_on,
            other,
            right_on,
            take,
            gather,
        ),
    decreases left_rows.len(),
{
    if left_rows.len() > 0 {
        let head = left_rows.drop_last();
        assert forall|k: int| 0 <= k < head.len() implies partners(
            #[trigger] head[k],
            left_on,
            one,
            right_on,
        ) == partners(head[k], left_on, other, right_on) by {
            assert(head[k] == left_rows[k]);
        }
        lemma_joined_rows_same_partners(head, left_on, one, other, right_on, take, gather);
        assert(left_rows[left_rows.len() - 1] == left_rows.last());
    }
}

/// What a left join makes of one left row when the right table has a
/// single row: one row.
pub open spec fn joined_with_one(
    left_row: Seq<CellView>,
    left_on: Seq<int>,
    right_row: Seq<CellView>,
    right_on: Seq<int>,
    take: Seq<int>,
) -> Seq<CellView> {
    if keys_agree(pick(left_row, left_on), pick(right_row, right_on)) {
        left_row + pick(right_row, take)
    } else {
        left_row + nulls(take.len())
    }
}

/// Joined to a table of one row, every left row gives one row.
pub proof fn lemma_joined_rows_with_one(
    left_rows: Seq<Seq<CellView>>,
    left_on: Seq<int>,
    right_row: Seq<CellView>,
    right_on: Seq<int>,
    take: Seq<int>,
)
    ensures
        joined_rows(left_rows, left_on, seq![right_row], right_on, take, false)
            == left_rows.map_values(
            |l: Seq<CellView>| joined_with_one(l, left_on, right_row, right_on, take),
        ),
    decreases left_rows.len(),
{
    let one = seq![right_row];
    assert(one.drop_last() == Seq::<Seq<CellView>>::empty());
    assert(one.last() == right_row);
    if left_rows.len() > 0 {
        let head = left_rows.drop_last();
        let last = left_rows.last();
        lemma_joined_rows_with_one(head, left_on, right_row, right_on, take);
        let found = partners(last, left_on, one, right_on);
        assert(partners(last, left_on, one.drop_last(), right_on) == Seq::<
            Seq<CellView>,
        >::empty());
        if keys_agree(pick(last, left_on), pick(right_row, right_on)) {
            assert(found == seq![right_row]);
            assert(joined_for(last, found, take) == seq![last + pick(right_row, take)]);
        } else {
            assert(found.len() == 0);
        }
        assert(joined_for(last, found, take) == seq![
            joined_with_one(last, left_on, right_row, right_on, take),
        ]);
        assert(left_rows.map_values(
            |l: Seq<CellView>| joined_with_one(l, left_on, right_row, right_on, take),
        ) == head.map_values(
            |l: Seq<CellView>| joined_with_one(l, left_on, right_row, right_on, take),
        ).push(joined_with_one(last, left_on, right_row, right_on, take)));
    }
}

} // verus!
