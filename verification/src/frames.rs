//! Tables handed over as polars data frames.
//!
//! A data frame is made of the columns of a table, every cell a text or
//! null. A cell that holds a list of detail rows is written as a JSON array
//! first, since a column of texts cannot hold a list.

use crate::json::{json_array, nested_json};
use crate::table::{cells_view, no_repeats, rows_view, texts_view, Cell, CellView, Table, TableView};
use crate::utils::errors::SsimError;
use polars::prelude::{Column, DataFrame, PolarsError};
use vstd::prelude::*;

verus! {

/// polars' `DataFrame`, taken as it is. Of a value nothing is known but
/// what `frame_columns` and `frame_height` name.
#[verifier::external_type_specification]
#[verifier::external_body]
pub struct ExDataFrame(DataFrame);

/// polars' `Column`, of which a data frame is made. Nothing is known of a
/// value.
#[verifier::external_type_specification]
#[verifier::external_body]
pub struct ExColumn(Column);

/// polars' `PolarsError`, taken as it is. Nothing is known of a value.
#[verifier::external_type_specification]
#[verifier::external_body]
pub struct ExPolarsError(PolarsError);

/// The columns that a data frame holds, left to right: the name of each
/// and its cells, top to bottom, a null cell being `None`.
pub uninterp spec fn frame_columns(frame: DataFrame) -> Seq<(Seq<char>, Seq<Option<Seq<char>>>)>;

/// The number of rows of a data frame.
pub uninterp spec fn frame_height(frame: DataFrame) -> nat;

/// One column of texts: its name and its cells, top to bottom.
#[derive(Debug)]
pub struct TextColumn {
    /// The column name.
    pub name: String,
    /// The cells; `None` is a cell without a value.
    pub cells: Vec<Option<String>>,
}

/// A cell of texts as plain values.
pub open spec fn text_cell_view(cell: Option<String>) -> Option<Seq<char>> {
    match cell {
        Some(text) => Some(text@),
        None => None,
    }
}

impl View for TextColumn {
    type V = (Seq<char>, Seq<Option<Seq<char>>>);

    open spec fn view(&self) -> (Seq<char>, Seq<Option<Seq<char>>>) {
        (self.name@, self.cells@.map_values(|c: Option<String>| text_cell_view(c)))
    }
}

/// Columns of texts as plain values.
pub open spec fn column_views(columns: Seq<TextColumn>) -> Seq<
    (Seq<char>, Seq<Option<Seq<char>>>),
> {
    columns.map_values(|c: TextColumn| c@)
}

/// Whether no two columns bear the same name.
pub open spec fn names_differ(columns: Seq<(Seq<char>, Seq<Option<Seq<char>>>)>) -> bool {
    forall|i: int, j: int|
        0 <= i < j < columns.len() ==> (#[trigger] columns[i]).0 != (#[trigger] columns[j]).0
}

/// Whether columns can make up a data frame of the given height: they all
/// have that many cells, and no two of them bear the same name.
pub open spec fn can_be_framed(
    height: nat,
    columns: Seq<(Seq<char>, Seq<Option<Seq<char>>>)>,
) -> bool {
    &&& forall|i: int| 0 <= i < columns.len() ==> (#[trigger] columns[i]).1.len() == height
    &&& names_differ(columns)
}

/// `DataFrame::new` over columns made by `Column::new`: the data frame of
/// the given height that holds these columns of texts, in this order.
/// polars refuses columns of another height and columns that share a name;
/// such columns are not handed to it.
#[verifier::external_body]
fn frame_of(height: usize, columns: Vec<TextColumn>) -> (made: Result<DataFrame, PolarsError>)
    requires
        can_be_framed(height as nat, column_views(columns@)),
    ensures
        made is Ok,
        made matches Ok(frame) ==> frame_columns(frame) == column_views(columns@),
        made matches Ok(frame) ==> frame_height(frame) == height,
{
    DataFrame::new(
        height,
        columns.into_iter().map(|c| Column::new(c.name.into(), c.cells)).collect(),
    )
}

/// The `Display` form of a `PolarsError`: what polars has to say about a
/// failure, as a text. Nothing is claimed of the text.
#[verifier::external_body]
fn failure_text(error: &PolarsError) -> (text: String) {
    format!("{}", error)
}

/// A cell as a text, null, or a JSON array of its detail rows under the
/// names `detail_names`.
pub open spec fn flat_cell(cell: CellView, detail_names: Seq<Seq<char>>) -> Option<Seq<char>> {
    match cell {
        CellView::Null => None,
        CellView::Text(text) => Some(text),
        CellView::Nested(items) => Some(json_array(detail_names, items)),
    }
}

/// The columns of texts that a table comes to.
pub open spec fn text_columns(table: TableView, detail_names: Seq<Seq<char>>) -> Seq<
    (Seq<char>, Seq<Option<Seq<char>>>),
> {
    Seq::new(
        table.names.len(),
        |c: int|
            (
                table.names[c],
                Seq::new(table.rows.len(), |r: int| flat_cell(table.rows[r][c], detail_names)),
            ),
    )
}

/// The columns that a table comes to bear the names of its columns: they
/// differ exactly if those differ.
pub proof fn lemma_names_differ(table: TableView, detail_names: Seq<Seq<char>>)
    ensures
        names_differ(text_columns(table, detail_names)) <==> no_repeats(table.names),
{
    let columns = text_columns(table, detail_names);
    if no_repeats(table.names) {
        assert forall|i: int, j: int| 0 <= i < j < columns.len() implies (#[trigger] columns[i]).0
            != (#[trigger] columns[j]).0 by {
            assert(columns[i].0 == table.names[i]);
            assert(columns[j].0 == table.names[j]);
        }
    }
    if names_differ(columns) {
        assert forall|i: int, j: int| 0 <= i < j < table.names.len() implies table.names[i]
            != table.names[j] by {
            assert(columns[i].0 == table.names[i]);
            assert(columns[j].0 == table.names[j]);
        }
    }
}

/// Whether no two names of a list are the same.
fn names_all_differ(names: &Vec<String>) -> (differ: bool)
    ensures
        differ == no_repeats(texts_view(names@)),
{
    let ghost texts = texts_view(names@);
    let mut later: usize = 0;
    while later < names.len()
        invariant
            later <= names.len(),
            texts == texts_view(names@),
            forall|i: int, j: int| 0 <= i < j < later ==> texts[i] != texts[j],
        decreases names.len() - later,
    {
        let mut earlier: usize = 0;
        while earlier < later
            invariant
                earlier <= later < names.len(),
                texts == texts_view(names@),
                forall|i: int| 0 <= i < earlier ==> texts[i] != texts[later as int],
            decreases later - earlier,
        {
            if names[earlier] == names[later] {
                assert(texts[earlier as int] == texts[later as int]);
                return false;
            }
            earlier = earlier + 1;
        }
        later = later + 1;
    }
    true
}

/// A cell as a text, null, or a JSON array.
fn flatten_cell(cell: &Cell, detail_names: &Vec<String>) -> (flat: Option<String>)
    ensures
        text_cell_view(flat) == flat_cell(cell@, texts_view(detail_names@)),
{
    match cell {
        Cell::Null => None,
        Cell::Text(text) => Some(text.clone()),
        Cell::Nested(items) => Some(nested_json(detail_names, items)),
    }
}

/// Turns a table into columns of texts.
pub fn to_columns(table: &Table, detail_names: &Vec<String>) -> (columns: Vec<TextColumn>)
    ensures
        column_views(columns@) == text_columns(table@, texts_view(detail_names@)),
{
    let names = table.column_names();
    let rows = table.rows();
    let ghost view = table@;
    let ghost keys = texts_view(detail_names@);
    let ghost wanted = text_columns(view, keys);
    let mut columns: Vec<TextColumn> = Vec::new();
    let mut c: usize = 0;
    while c < names.len()
        invariant
            c <= names.len(),
            view == table@,
            view.wf(),
            keys == texts_view(detail_names@),
            wanted == text_columns(view, keys),
            texts_view(names@) == view.names,
            rows_view(rows@) == view.rows,
            column_views(columns@) == wanted.take(c as int),
        decreases names.len() - c,
    {
        let mut cells: Vec<Option<String>> = Vec::new();
        let mut r: usize = 0;
        let ghost column = wanted[c as int].1;
        while r < rows.len()
            invariant
                r <= rows.len(),
                c < names.len(),
                view.wf(),
                texts_view(names@) == view.names,
                rows_view(rows@) == view.rows,
                keys == texts_view(detail_names@),
                column == Seq::new(
                    view.rows.len(),
                    |r: int| flat_cell(view.rows[r][c as int], keys),
                ),
                cells@.map_values(|x: Option<String>| text_cell_view(x)) == column.take(r as int),
            decreases rows.len() - r,
        {
            proof {
                assert(view.rows[r as int] == cells_view(rows@[r as int]@));
                assert(view.rows[r as int].len() == view.names.len());
                assert(texts_view(names@).len() == names@.len());
            }
            let flat = flatten_cell(&rows[r][c], detail_names);
            proof {
                assert(cells@.push(flat).map_values(|x: Option<String>| text_cell_view(x))
                    == cells@.map_values(|x: Option<String>| text_cell_view(x)).push(
                    text_cell_view(flat),
                ));
                assert(column.take(r as int + 1) == column.take(r as int).push(column[r as int]));
            }
            cells.push(flat);
            r = r + 1;
        }
        let made = TextColumn { name: names[c].clone(), cells };
        proof {
            assert(column.take(r as int) == column);
            assert(made@ == wanted[c as int]);
            assert(column_views(columns@.push(made)) == column_views(columns@).push(made@));
            assert(wanted.take(c as int + 1) == wanted.take(c as int).push(wanted[c as int]));
        }
        columns.push(made);
        c = c + 1;
    }
    proof {
        assert(texts_view(names@).len() == names@.len());
        assert(wanted.take(c as int) == wanted);
    }
    columns
}

/// What becomes of the answer of polars to the making of a data frame.
pub fn framed(made: Result<DataFrame, PolarsError>) -> (frame: Result<DataFrame, SsimError>)
    ensures
        match made {
            Ok(ok) => frame == Ok::<DataFrame, SsimError>(ok),
            Err(_) => frame matches Err(e) && e is Frame,
        },
{
    match made {
        Ok(frame) => Ok(frame),
        Err(error) => Err(SsimError::Frame(failure_text(&error))),
    }
}

/// Hands a table over as a data frame with one column of texts per column
/// of the table.
///
/// A cell without a value becomes a null; a cell that holds detail rows
/// becomes a JSON array of objects with the names `detail_names`. A table
/// with two columns of the same name is refused, and is not shown to
/// polars; every other table gives a data frame.
pub fn to_frame(table: &Table, detail_names: &Vec<String>) -> (frame: Result<DataFrame, SsimError>)
    ensures
        frame is Ok <==> no_repeats(table@.names),
        frame matches Ok(made) ==> frame_columns(made) == text_columns(
            table@,
            texts_view(detail_names@),
        ) && frame_height(made) == table@.rows.len(),
        frame matches Err(e) ==> e is Frame,
{
    let names = table.column_names();
    if !names_all_differ(&names) {
        return Err(SsimError::Frame("two columns bear the same name".to_owned()));
    }
    let height = table.height();
    let columns = to_columns(table, detail_names);
    proof {
        lemma_names_differ(table@, texts_view(detail_names@));
    }
    framed(frame_of(height, columns))
}

} // verus!
