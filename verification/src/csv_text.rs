//! Tables written as comma-separated text.
//!
//! Every line is made by the csv writer; which lines there are, and in
//! which order, is decided here.

use crate::frames::flat_cell;
use crate::json::nested_json;
use crate::table::{cells_view, rows_view, texts_view, Cell, CellView, Table, TableView};
use crate::utils::errors::SsimError;
use csv::{Error, Writer};
use vstd::prelude::*;

verus! {

/// The csv crate's `Error`, taken as it is. Nothing is known of a value.
#[verifier::external_type_specification]
#[verifier::external_body]
pub struct ExCsvError(Error);

/// The bytes that the csv writer makes of one record: its fields with
/// commas between them, quoted where they must be, and the line ending.
pub uninterp spec fn csv_record(fields: Seq<Seq<char>>) -> Seq<u8>;

/// `csv::Writer::write_record` on a writer of its own (`Writer::from_writer`
/// over an empty buffer), and the buffer that `into_inner` hands back: the
/// bytes of this one record. The writer fails only where what it writes to
/// fails or where a record has another number of fields than the first;
/// here it writes to memory and the record is its first, so it succeeds.
#[verifier::external_body]
fn write_record(fields: &Vec<String>) -> (written: Result<Vec<u8>, Error>)
    ensures
        written is Ok,
        written matches Ok(bytes) ==> bytes@ == csv_record(texts_view(fields@)),
{
    let mut writer = Writer::from_writer(Vec::new());
    writer.write_record(fields)?;
    writer.into_inner().map_err(|e| Error::from(e.into_error()))
}

/// The `Display` form of a csv `Error`: what the csv writer has to say about
/// a failure, as a text. Nothing is claimed of the text.
#[verifier::external_body]
fn failure_text(error: &Error) -> (text: String) {
    format!("{}", error)
}

/// Adds the bytes of a record to a text, if the csv writer made them.
pub fn add_record(text: &mut Vec<u8>, written: Result<Vec<u8>, Error>) -> (done: Result<
    (),
    SsimError,
>)
    ensures
        match written {
            Ok(bytes) => done is Ok && final(text)@ == old(text)@ + bytes@,
            Err(_) => done matches Err(e) && e is Output && final(text)@ == old(text)@,
        },
{
    match written {
        Ok(bytes) => {
            let mut bytes = bytes;
            text.append(&mut bytes);
            Ok(())
        },
        Err(error) => Err(SsimError::Output(failure_text(&error))),
    }
}

/// The text that stands for a cell: its own text, nothing for a cell
/// without a value, a JSON array for a cell of detail rows.
pub open spec fn field_of(cell: CellView, detail_names: Seq<Seq<char>>) -> Seq<char> {
    match flat_cell(cell, detail_names) {
        Some(text) => text,
        None => Seq::empty(),
    }
}

/// The fields of a row.
pub open spec fn fields_of(row: Seq<CellView>, detail_names: Seq<Seq<char>>) -> Seq<Seq<char>> {
    row.map_values(|c: CellView| field_of(c, detail_names))
}

/// The text of the first `count` rows, line after line.
pub open spec fn csv_rows(rows: Seq<Seq<CellView>>, detail_names: Seq<Seq<char>>, count: int) -> Seq<
    u8,
>
    decreases count,
{
    if count <= 0 {
        Seq::empty()
    } else {
        csv_rows(rows, detail_names, count - 1) + csv_record(
            fields_of(rows[count - 1], detail_names),
        )
    }
}

/// The text of a table: the line of column names, if it is asked for, and
/// one line per row.
pub open spec fn csv_text(table: TableView, include_header: bool, detail_names: Seq<Seq<char>>) -> Seq<
    u8,
> {
    (if include_header {
        csv_record(table.names)
    } else {
        Seq::empty()
    }) + csv_rows(table.rows, detail_names, table.rows.len() as int)
}

/// The fields of a row.
fn row_fields(row: &Vec<Cell>, detail_names: &Vec<String>) -> (fields: Vec<String>)
    ensures
        texts_view(fields@) == fields_of(cells_view(row@), texts_view(detail_names@)),
{
    let ghost wanted = fields_of(cells_view(row@), texts_view(detail_names@));
    let mut fields: Vec<String> = Vec::new();
    let mut at: usize = 0;
    assert(wanted.take(0) == Seq::<Seq<char>>::empty());
    while at < row.len()
        invariant
            at <= row.len(),
            wanted == fields_of(cells_view(row@), texts_view(detail_names@)),
            texts_view(fields@) == wanted.take(at as int),
        decreases row.len() - at,
    {
        let field = match &row[at] {
            Cell::Null => String::new(),
            Cell::Text(text) => text.clone(),
            Cell::Nested(items) => nested_json(detail_names, items),
        };
        proof {
            assert(wanted[at as int] == field@);
            assert(texts_view(fields@.push(field)) == texts_view(fields@).push(field@));
            assert(wanted.take(at as int + 1) == wanted.take(at as int).push(wanted[at as int]));
        }
        fields.push(field);
        at = at + 1;
    }
    assert(wanted.take(at as int) == wanted);
    fields
}

/// Writes a table as comma-separated text: the line of column names, if
/// `include_header` asks for it, and one line per row, top to bottom. A cell
/// without a value gives an empty field; a cell of detail rows gives a JSON
/// array of objects with the names `detail_names`.
///
/// The csv writer makes every line. It writes to memory, one record at a
/// time, and so cannot fail.
pub fn table_csv(table: &Table, include_header: bool, detail_names: &Vec<String>) -> (text: Result<
    Vec<u8>,
    SsimError,
>)
    ensures
        text matches Ok(bytes) && bytes@ == csv_text(
            table@,
            include_header,
            texts_view(detail_names@),
        ),
{
    let ghost view = table@;
    let ghost keys = texts_view(detail_names@);
    let mut text: Vec<u8> = Vec::new();
    if include_header {
        let names = table.column_names();
        match add_record(&mut text, write_record(&names)) {
            Ok(()) => {},
            Err(e) => {
                return Err(e);
            },
        }
    }
    let ghost head = text@;
    let rows = table.rows();
    let mut at: usize = 0;
    proof {
        assert(head + csv_rows(view.rows, keys, 0) == head);
    }
    while at < rows.len()
        invariant
            at <= rows.len(),
            rows_view(rows@) == view.rows,
            keys == texts_view(detail_names@),
            text@ == head + csv_rows(view.rows, keys, at as int),
        decreases rows.len() - at,
    {
        let fields = row_fields(&rows[at], detail_names);
        proof {
            assert(view.rows[at as int] == cells_view(rows@[at as int]@));
        }
        match add_record(&mut text, write_record(&fields)) {
            Ok(()) => {},
            Err(e) => {
                return Err(e);
            },
        }
        proof {
            assert(head + (csv_rows(view.rows, keys, at as int) + csv_record(
                fields_of(view.rows[at as int], keys),
            )) == head + csv_rows(view.rows, keys, at as int) + csv_record(
                fields_of(view.rows[at as int], keys),
            ));
        }
        at = at + 1;
    }
    Ok(text)
}

} // verus!
