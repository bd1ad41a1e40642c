//! The output strategies that prepare files: a text file that grows batch by
//! batch, and one compressed file per carrier.
//!
//! Neither touches a disk. Each lays what is to be written on a pile, in
//! order; whoever drives the reader takes the pile after every line and
//! writes it out.

use crate::converters::ssim_tables::{
    combine_all_dataframes, joined_column_names, lemma_record_tables_combine, segment_detail_names,
    segment_details,
};
use crate::csv_text::{csv_text, table_csv};
use crate::generators::ssim_dataframe::{carrier_list, convert_to_dataframes};
use crate::records::carrier_record::CarrierRecord;
use crate::records::flight_leg_records::FlightLegRecord;
use crate::records::segment_records::SegmentRecords;
use crate::table::{stacked, table_views, Table, TableView};
use crate::utils::errors::SsimError;
use crate::utils::ssim_parser::active_view;
use crate::utils::ssim_processors::{all_have_columns, batch_table, lemma_tables_push, with_rows};
use crate::utils::ssim_reader::{
    flight_views, segment_views, BatchEvent, BatchProcessor, Refusal,
};
use crate::utils::text::{trim, trimmed};
use vstd::prelude::*;
use vstd::string::*;

verus! {

/// Piles of bytes as plain values.
pub open spec fn pieces_view(pieces: Seq<Vec<u8>>) -> Seq<Seq<u8>> {
    pieces.map_values(|p: Vec<u8>| p@)
}

/// The strategy that turns every batch into a piece of one text file as
/// soon as it is joined. The column names are written once, before the
/// first batch, unless the file was there before.
pub struct CsvWriterProcessor {
    headers_written: bool,
    condense_segments: bool,
    ready: Vec<Vec<u8>>,
    taken: Ghost<Seq<BatchEvent>>,
}

impl CsvWriterProcessor {
    /// Whether the next batch is written with the column names before it.
    pub closed spec fn header_due(&self) -> bool {
        !self.headers_written
    }

    /// The pieces of text that wait to be appended to the file, oldest
    /// first.
    pub closed spec fn pending(&self) -> Seq<Seq<u8>> {
        pieces_view(self.ready@)
    }

    /// A strategy for a text file that is there already (`file_exists`) or
    /// is yet to be made.
    pub fn new(file_exists: bool, condense_segments: bool) -> (processor: CsvWriterProcessor)
        ensures
            processor.sound(),
            processor.handled() == Seq::<BatchEvent>::empty(),
            processor.setup() == condense_segments,
            processor.header_due() == !file_exists,
            processor.pending() == Seq::<Seq<u8>>::empty(),
    {
        let processor = CsvWriterProcessor {
            headers_written: file_exists,
            condense_segments,
            ready: Vec::new(),
            taken: Ghost(Seq::empty()),
        };
        assert(pieces_view(processor.ready@) == Seq::<Seq<u8>>::empty());
        processor
    }

    /// Takes the pieces that wait to be appended off the pile.
    pub fn take_output(&mut self) -> (pieces: Vec<Vec<u8>>)
        ensures
            pieces_view(pieces@) == old(self).pending(),
            final(self).pending() == Seq::<Seq<u8>>::empty(),
            final(self).header_due() == old(self).header_due(),
            final(self).handled() == old(self).handled(),
            final(self).setup() == old(self).setup(),
            final(self).sound() == old(self).sound(),
    {
        let mut pieces: Vec<Vec<u8>> = Vec::new();
        core::mem::swap(&mut pieces, &mut self.ready);
        assert(pieces_view(self.ready@) == Seq::<Seq<u8>>::empty());
        pieces
    }
}

impl BatchProcessor for CsvWriterProcessor {
    /// Whether segments are gathered into one cell per leg.
    type Setup = bool;

    closed spec fn setup(&self) -> bool {
        self.condense_segments
    }

    open spec fn sound(&self) -> bool {
        true
    }

    open spec fn reliable(&self) -> bool {
        true
    }

    closed spec fn handled(&self) -> Seq<BatchEvent> {
        self.taken@
    }

    open spec fn refused(&self) -> Seq<Refusal> {
        Seq::empty()
    }

    /// Joins the batch and lays its text on the pile: the rows of the
    /// joined table, behind the column names if they are due.
    fn process_batch(
        &mut self,
        flight_batch: Vec<FlightLegRecord>,
        segment_batch: Vec<SegmentRecords>,
        carrier: Option<&CarrierRecord>,
    ) -> (done: Result<(), SsimError>)
        ensures
            done is Ok,
            final(self).header_due() == false,
            final(self).pending() == old(self).pending().push(
                csv_text(
                    batch_table(
                        BatchEvent::Batch {
                            carrier: active_view(carrier),
                            flights: flight_views(flight_batch@),
                            segments: segment_views(segment_batch@),
                        },
                        old(self).setup(),
                    )->0,
                    old(self).header_due(),
                    segment_details(),
                ),
            ),
    {
        let ghost before = self.taken@;
        let ghost event = BatchEvent::Batch {
            carrier: active_view(carrier),
            flights: flight_views(flight_batch@),
            segments: segment_views(segment_batch@),
        };
        let (carrier_table, flight_table, segment_table) = convert_to_dataframes(
            carrier,
            flight_batch,
            segment_batch,
        );
        proof {
            lemma_record_tables_combine(
                carrier_list(active_view(carrier)),
                flight_views(flight_batch@),
                segment_views(segment_batch@),
                self.condense_segments,
            );
        }
        let table = match combine_all_dataframes(
            &carrier_table,
            &flight_table,
            &segment_table,
            self.condense_segments,
        ) {
            Ok(table) => table,
            Err(e) => {
                return Err(e);
            },
        };
        let piece = match table_csv(&table, !self.headers_written, &segment_detail_names()) {
            Ok(piece) => piece,
            Err(e) => {
                return Err(e);
            },
        };
        assert(pieces_view(self.ready@.push(piece)) == pieces_view(self.ready@).push(piece@));
        self.ready.push(piece);
        self.headers_written = true;
        self.taken = Ghost(before.push(event));
        Ok(())
    }

    fn on_carrier_complete(&mut self, carrier: Option<&CarrierRecord>) -> (done: Result<
        (),
        SsimError,
    >)
        ensures
            done is Ok,
            final(self).header_due() == old(self).header_due(),
            final(self).pending() == old(self).pending(),
    {
        self.taken = Ghost(
            self.taken@.push(BatchEvent::CarrierComplete { carrier: active_view(carrier) }),
        );
        Ok(())
    }

    fn finalize(&mut self) -> (done: Result<(), SsimError>)
        ensures
            done is Ok,
            final(self).header_due() == old(self).header_due(),
            final(self).pending() == old(self).pending(),
    {
        self.taken = Ghost(self.taken@.push(BatchEvent::Finalize));
        Ok(())
    }
}

/// The name under which a carrier's file goes: the airline designator and
/// the control/duplicate indicator, both without their outer blanks, with an
/// underscore between them. The underscore stays when either is blank, and
/// the indicator is then left out.
pub open spec fn carrier_name(airline: Seq<char>, control: Seq<char>) -> Seq<char> {
    if trim(airline).len() > 0 && trim(control).len() > 0 {
        trim(airline) + seq!['_'] + trim(control)
    } else {
        trim(airline) + seq!['_']
    }
}

/// Whether a compression is one of those that are named in the middle of
/// the file name.
pub open spec fn names_itself(compression: Seq<char>) -> bool {
    ||| compression == "snappy"@
    ||| compression == "lz4"@
    ||| compression == "zstd"@
    ||| compression == "brotli"@
    ||| compression == "lzo"@
}

/// The file name of a carrier under a compression. A compression that is
/// not known is treated as none.
pub open spec fn carrier_file_name(
    airline: Seq<char>,
    control: Seq<char>,
    compression: Seq<char>,
) -> Seq<char> {
    if compression == "uncompressed"@ {
        "ssim_"@ + carrier_name(airline, control) + ".parquet"@
    } else if compression == "gzip"@ {
        "ssim_"@ + carrier_name(airline, control) + ".parquet.gz"@
    } else if names_itself(compression) {
        "ssim_"@ + carrier_name(airline, control) + "."@ + compression + ".parquet"@
    } else {
        "ssim_"@ + carrier_name(airline, control) + ".parquet"@
    }
}

/// Whether a text is the given word.
fn is_word(text: &String, word: &str) -> (same: bool)
    ensures
        same == (text@ == word@),
{
    *text == word.to_owned()
}

/// Builds the file name of a carrier under a compression.
pub fn build_filename(airline: &str, control: &str, compression: &String) -> (name: String)
    ensures
        name@ == carrier_file_name(airline@, control@, compression@),
{
    let airline = trimmed(airline);
    let control = trimmed(control);
    proof {
        reveal_strlit("_");
        assert("_"@ == seq!['_']);
    }
    let mut name = "ssim_".to_owned();
    name.append(airline.as_str());
    name.append("_");
    if airline.as_str().unicode_len() > 0 && control.as_str().unicode_len() > 0 {
        name.append(control.as_str());
    }
    if is_word(compression, "uncompressed") {
        name.append(".parquet");
    } else if is_word(compression, "gzip") {
        name.append(".parquet.gz");
    } else if is_word(compression, "snappy") || is_word(compression, "lz4") || is_word(
        compression,
        "zstd",
    ) || is_word(compression, "brotli") || is_word(compression, "lzo") {
        name.append(".");
        name.append(compression.as_str());
        name.append(".parquet");
    } else {
        name.append(".parquet");
    }
    name
}

/// The last part of a path: what follows its last `/`.
pub open spec fn last_part(path: Seq<char>) -> Seq<char>
    decreases path.len(),
{
    if path.len() == 0 || path.last() == '/' {
        Seq::empty()
    } else {
        last_part(path.drop_last()).push(path.last())
    }
}

/// The name that a path ends in: the last of its parts that is neither
/// empty nor a single dot. A path without such a part ends in no name.
pub open spec fn last_name(path: Seq<char>) -> Seq<char>
    decreases path.len(),
{
    let part = last_part(path);
    if part.len() > 0 && part != seq!['.'] {
        part
    } else if path.len() > part.len() {
        last_name(path.take(path.len() - part.len() - 1))
    } else {
        Seq::empty()
    }
}

/// Whether a name has an extension: a dot that is not its first character.
/// The name `..` has none.
pub open spec fn has_extension(name: Seq<char>) -> bool {
    name != seq!['.', '.'] && exists|i: int| 1 <= i < name.len() && name[i] == '.'
}

/// Whether a path, its parts divided by `/`, reads as the path of a file:
/// the name that it ends in has an extension.
pub open spec fn reads_as_file(path: Seq<char>) -> bool {
    has_extension(last_name(path))
}

/// The last part of a path starts behind its last `/`.
proof fn lemma_last_part(path: Seq<char>, start: int)
    requires
        0 <= start <= path.len(),
        forall|i: int| start <= i < path.len() ==> path[i] != '/',
        start == 0 || path[start - 1] == '/',
    ensures
        last_part(path) == path.skip(start),
    decreases path.len(),
{
    if path.len() == start {
        assert(path.skip(start) == Seq::<char>::empty());
    } else {
        lemma_last_part(path.drop_last(), start);
        assert(path.drop_last().skip(start).push(path.last()) == path.skip(start));
    }
}

/// Whether a path reads as the path of a file and not of a directory. The
/// files of the carriers go into a directory, so a path that names a file
/// is turned down before anything is read.
pub fn names_a_file(path: &str) -> (named: bool)
    ensures
        named == reads_as_file(path@),
{
    let length = path.unicode_len();
    let mut end: usize = length;
    proof {
        assert(path@.take(end as int) == path@);
    }
    loop
        invariant
            end <= length,
            length == path@.len(),
            last_name(path@) == last_name(path@.take(end as int)),
        decreases end,
    {
        let mut start: usize = end;
        while start > 0 && path.get_char(start - 1) != '/'
            invariant
                start <= end,
                end <= length,
                length == path@.len(),
                forall|i: int| start <= i < end ==> path@[i] != '/',
            decreases start,
        {
            start = start - 1;
        }
        let ghost part = path@.subrange(start as int, end as int);
        proof {
            lemma_last_part(path@.take(end as int), start as int);
            assert(path@.take(end as int).skip(start as int) == part);
        }
        let size: usize = end - start;
        if size > 0 && !(size == 1 && path.get_char(start) == '.') {
            proof {
                if part == seq!['.'] {
                    assert(part.len() == 1);
                    assert(part[0] == '.');
                }
                assert(last_name(path@) == part);
            }
            if size == 2 && path.get_char(start) == '.' && path.get_char(start + 1) == '.' {
                assert(part == seq!['.', '.']);
                return false;
            }
            proof {
                if part == seq!['.', '.'] {
                    assert(part.len() == 2);
                    assert(part[0] == '.' && part[1] == '.');
                }
            }
            let mut at: usize = start + 1;
            while at < end
                invariant
                    start < at <= end,
                    end <= length,
                    length == path@.len(),
                    part == path@.subrange(start as int, end as int),
                    last_name(path@) == part,
                    part != seq!['.', '.'],
                    forall|i: int| 1 <= i < at - start ==> part[i] != '.',
                decreases end - at,
            {
                if path.get_char(at) == '.' {
                    assert(part[at - start] == '.');
                    return true;
                }
                at = at + 1;
            }
            return false;
        }
        proof {
            if size == 1 {
                assert(part == seq!['.']);
            }
        }
        if start == 0 {
            return false;
        }
        proof {
            assert(path@.take(end as int).take(start - 1) == path@.take(start - 1));
        }
        end = start - 1;
    }
}

/// How the file of a carrier is compressed.
#[derive(Debug, Clone, Copy, PartialEq, Eq, Structural)]
pub enum Compression {
    /// As it is.
    Uncompressed,
    /// Snappy.
    Snappy,
    /// Gzip.
    Gzip,
    /// LZ4.
    Lz4,
    /// Zstandard.
    Zstd,
}

/// Whether a text spells a word, capital letters counting as small ones.
/// The word itself is written in small letters.
pub open spec fn spells(text: Seq<char>, word: Seq<char>) -> bool {
    &&& text.len() == word.len()
    &&& forall|i: int|
        0 <= i < text.len() ==> (#[trigger] text[i]) == word[i] || ('A' <= text[i] && text[i] <= 'Z'
            && text[i] as u32 + 32 == word[i] as u32)
}

/// The compression that a name stands for. A name that is not known stands
/// for none.
pub open spec fn compression_named(name: Seq<char>) -> Compression {
    if spells(name, "snappy"@) {
        Compression::Snappy
    } else if spells(name, "gzip"@) {
        Compression::Gzip
    } else if spells(name, "lz4"@) {
        Compression::Lz4
    } else if spells(name, "zstd"@) {
        Compression::Zstd
    } else {
        Compression::Uncompressed
    }
}

/// Whether a text spells a word, capital letters counting as small ones.
fn is_spelled(text: &str, word: &str) -> (same: bool)
    ensures
        same == spells(text@, word@),
{
    let length = text.unicode_len();
    if length != word.unicode_len() {
        return false;
    }
    let mut at: usize = 0;
    while at < length
        invariant
            at <= length,
            length == text@.len(),
            length == word@.len(),
            forall|i: int|
                0 <= i < at ==> (#[trigger] text@[i]) == word@[i] || ('A' <= text@[i] && text@[i]
                    <= 'Z' && text@[i] as u32 + 32 == word@[i] as u32),
        decreases length - at,
    {
        let have = text.get_char(at);
        let want = word.get_char(at);
        let capital = 'A' <= have && have <= 'Z' && have as u32 + 32 == want as u32;
        if have != want && !capital {
            return false;
        }
        at = at + 1;
    }
    true
}

impl Compression {
    /// The compression that a name stands for: `snappy`, `gzip`, `lz4` or
    /// `zstd`, in capital or small letters. Any other name, `uncompressed`
    /// among them, stands for none, also where the file's name bears it.
    pub fn from_name(name: &str) -> (compression: Compression)
        ensures
            compression == compression_named(name@),
    {
        if is_spelled(name, "snappy") {
            Compression::Snappy
        } else if is_spelled(name, "gzip") {
            Compression::Gzip
        } else if is_spelled(name, "lz4") {
            Compression::Lz4
        } else if is_spelled(name, "zstd") {
            Compression::Zstd
        } else {
            Compression::Uncompressed
        }
    }
}

/// The file of one carrier: its name and its rows.
#[derive(Debug)]
pub struct CarrierFile {
    /// The file name, without a directory.
    pub name: String,
    /// How the file is compressed.
    pub compression: Compression,
    /// The rows.
    pub table: Table,
}

/// The file of one carrier as plain values.
pub struct CarrierFileView {
    pub name: Seq<char>,
    pub compression: Compression,
    pub table: TableView,
}

impl View for CarrierFile {
    type V = CarrierFileView;

    open spec fn view(&self) -> CarrierFileView {
        CarrierFileView { name: self.name@, compression: self.compression, table: self.table@ }
    }
}

/// A pile of files as plain values.
pub open spec fn file_views(files: Seq<CarrierFile>) -> Seq<CarrierFileView> {
    files.map_values(|f: CarrierFile| f@)
}

/// What a per-carrier strategy is set up with.
#[derive(Debug)]
pub struct ParquetSetup {
    /// The name of the compression.
    pub compression: String,
    /// Whether segments are gathered into one cell per leg.
    pub condense_segments: bool,
}

/// The strategy that gathers the joined batches of the carrier at hand and,
/// when the carrier's section ends, lays one file for it on the pile.
pub struct ParquetWriterProcessor {
    setup: ParquetSetup,
    accumulated_batches: Vec<Table>,
    current_carrier_info: Option<(String, String)>,
    ready: Vec<CarrierFile>,
    taken: Ghost<Seq<BatchEvent>>,
    turned_down: Ghost<Seq<Refusal>>,
}

/// Who a file is for, as plain values.
pub open spec fn carrier_info_view(info: Option<(String, String)>) -> Option<
    (Seq<char>, Seq<char>),
> {
    match info {
        Some(pair) => Some((pair.0@, pair.1@)),
        None => None,
    }
}

impl ParquetWriterProcessor {
    /// The joined tables gathered for the carrier at hand.
    pub closed spec fn waiting(&self) -> Seq<TableView> {
        table_views(self.accumulated_batches@)
    }

    /// The airline designator and control/duplicate indicator of the
    /// carrier at hand.
    pub closed spec fn carrier_at_hand(&self) -> Option<(Seq<char>, Seq<char>)> {
        carrier_info_view(self.current_carrier_info)
    }

    /// The files that wait to be written, oldest first.
    pub closed spec fn pending(&self) -> Seq<CarrierFileView> {
        file_views(self.ready@)
    }

    /// A strategy with the given compression, or none when none is named.
    pub fn new(compression: Option<&str>, condense_segments: bool) -> (processor:
        ParquetWriterProcessor)
        ensures
            processor.sound(),
            processor.handled() == Seq::<BatchEvent>::empty(),
            processor.refused() == Seq::<Refusal>::empty(),
            processor.setup().condense_segments == condense_segments,
            processor.setup().compression@ == match compression {
                Some(name) => name@,
                None => "uncompressed"@,
            },
            processor.waiting() == Seq::<TableView>::empty(),
            processor.carrier_at_hand() is None,
            processor.pending() == Seq::<CarrierFileView>::empty(),
    {
        let name = match compression {
            Some(name) => name.to_owned(),
            None => "uncompressed".to_owned(),
        };
        let processor = ParquetWriterProcessor {
            setup: ParquetSetup { compression: name, condense_segments },
            accumulated_batches: Vec::new(),
            current_carrier_info: None,
            ready: Vec::new(),
            taken: Ghost(Seq::empty()),
            turned_down: Ghost(Seq::empty()),
        };
        assert(table_views(processor.accumulated_batches@) == Seq::<TableView>::empty());
        assert(file_views(processor.ready@) == Seq::<CarrierFileView>::empty());
        processor
    }

    /// Takes the files that wait to be written off the pile.
    pub fn take_output(&mut self) -> (files: Vec<CarrierFile>)
        ensures
            file_views(files@) == old(self).pending(),
            final(self).pending() == Seq::<CarrierFileView>::empty(),
            final(self).waiting() == old(self).waiting(),
            final(self).carrier_at_hand() == old(self).carrier_at_hand(),
            final(self).handled() == old(self).handled(),
            final(self).refused() == old(self).refused(),
            final(self).setup() == old(self).setup(),
            final(self).sound() == old(self).sound(),
    {
        let mut files: Vec<CarrierFile> = Vec::new();
        core::mem::swap(&mut files, &mut self.ready);
        assert(file_views(self.ready@) == Seq::<CarrierFileView>::empty());
        files
    }

    /// Lays the file of the carrier at hand on the pile, if rows were
    /// gathered for it.
    fn write_accumulated(&mut self) -> (done: Result<(), SsimError>)
        requires
            old(self).sound(),
        ensures
            final(self).sound(),
            final(self).setup() == old(self).setup(),
            final(self).handled() == old(self).handled(),
            final(self).refused() == old(self).refused(),
            final(self).carrier_at_hand() == old(self).carrier_at_hand(),
            written(
                old(self).waiting(),
                old(self).carrier_at_hand(),
                old(self).setup().compression@,
                old(self).pending(),
                final(self).waiting(),
                final(self).pending(),
                done,
            ),
    {
        if self.accumulated_batches.len() == 0 {
            return Ok(());
        }
        let name = match &self.current_carrier_info {
            Some(info) => build_filename(info.0.as_str(), info.1.as_str(), &self.setup.compression),
            None => {
                return Err(SsimError::MissingCarrier);
            },
        };
        proof {
            lemma_stacked_columns_exist(
                table_views(self.accumulated_batches@),
                joined_column_names(self.setup.condense_segments),
            );
        }
        let mut batches: Vec<Table> = Vec::new();
        core::mem::swap(&mut batches, &mut self.accumulated_batches);
        let table = match Table::stack(batches) {
            Ok(table) => table,
            Err(e) => {
                return Err(e);
            },
        };
        let compression = Compression::from_name(self.setup.compression.as_str());
        let file = CarrierFile { name, compression, table };
        assert(file_views(self.ready@.push(file)) == file_views(self.ready@).push(file@));
        self.ready.push(file);
        assert(table_views(self.accumulated_batches@) == Seq::<TableView>::empty());
        Ok(())
    }
}

/// Tables that all have the same columns can be stacked.
proof fn lemma_stacked_columns_exist(tables: Seq<TableView>, names: Seq<Seq<char>>)
    requires
        all_have_columns(tables, names),
    ensures
        stacked(tables) is Some,
{
    if tables.len() > 0 {
        assert(tables[0].names == names);
    }
}

/// What laying down the file of the carrier at hand comes to.
///
/// With nothing gathered, nothing happens. With rows gathered for a known
/// carrier, one file is laid on the pile, named after the carrier, with the
/// compression that was asked for and holding the gathered tables stacked,
/// and the gathering starts anew. With rows gathered and no carrier known
/// there is no name to give: that is a failure, and everything stays as it
/// is.
pub open spec fn written(
    waiting: Seq<TableView>,
    carrier: Option<(Seq<char>, Seq<char>)>,
    compression: Seq<char>,
    pending: Seq<CarrierFileView>,
    waiting_after: Seq<TableView>,
    pending_after: Seq<CarrierFileView>,
    done: Result<(), SsimError>,
) -> bool {
    if waiting.len() == 0 {
        done is Ok && waiting_after == waiting && pending_after == pending
    } else {
        match carrier {
            Some(who) => done is Ok && waiting_after == Seq::<TableView>::empty()
                && pending_after == pending.push(
                CarrierFileView {
                    name: carrier_file_name(who.0, who.1, compression),
                    compression: compression_named(compression),
                    table: stacked(waiting)->0,
                },
            ),
            None => done matches Err(e) && e is MissingCarrier && waiting_after == waiting
                && pending_after == pending,
        }
    }
}

impl BatchProcessor for ParquetWriterProcessor {
    type Setup = ParquetSetup;

    closed spec fn setup(&self) -> ParquetSetup {
        self.setup
    }

    closed spec fn sound(&self) -> bool {
        all_have_columns(
            table_views(self.accumulated_batches@),
            joined_column_names(self.setup.condense_segments),
        )
    }

    open spec fn reliable(&self) -> bool {
        false
    }

    closed spec fn handled(&self) -> Seq<BatchEvent> {
        self.taken@
    }

    closed spec fn refused(&self) -> Seq<Refusal> {
        self.turned_down@
    }

    fn process_batch(
        &mut self,
        flight_batch: Vec<FlightLegRecord>,
        segment_batch: Vec<SegmentRecords>,
        carrier: Option<&CarrierRecord>,
    ) -> (done: Result<(), SsimError>)
        ensures
            done is Ok,
            final(self).pending() == old(self).pending(),
            final(self).carrier_at_hand() == match carrier {
                Some(c) => Some((c@.airline_designator, c@.control_duplicate_indicator)),
                None => old(self).carrier_at_hand(),
            },
            final(self).waiting() == with_rows(
                old(self).waiting(),
                batch_table(
                    BatchEvent::Batch {
                        carrier: active_view(carrier),
                        flights: flight_views(flight_batch@),
                        segments: segment_views(segment_batch@),
                    },
                    old(self).setup().condense_segments,
                )->0,
            ),
    {
        let ghost before = self.taken@;
        let ghost event = BatchEvent::Batch {
            carrier: active_view(carrier),
            flights: flight_views(flight_batch@),
            segments: segment_views(segment_batch@),
        };
        match carrier {
            Some(c) => {
                self.current_carrier_info = Some(
                    (c.airline_designator.clone(), c.control_duplicate_indicator.clone()),
                );
            },
            None => {},
        }
        let (carrier_table, flight_table, segment_table) = convert_to_dataframes(
            carrier,
            flight_batch,
            segment_batch,
        );
        proof {
            lemma_record_tables_combine(
                carrier_list(active_view(carrier)),
                flight_views(flight_batch@),
                segment_views(segment_batch@),
                self.setup.condense_segments,
            );
        }
        let table = match combine_all_dataframes(
            &carrier_table,
            &flight_table,
            &segment_table,
            self.setup.condense_segments,
        ) {
            Ok(table) => table,
            Err(e) => {
                return Err(e);
            },
        };
        if table.height() > 0 {
            proof {
                lemma_tables_push(self.accumulated_batches@, table);
            }
            self.accumulated_batches.push(table);
        }
        self.taken = Ghost(before.push(event));
        Ok(())
    }

    fn on_carrier_complete(&mut self, carrier: Option<&CarrierRecord>) -> (done: Result<
        (),
        SsimError,
    >)
        ensures
            written(
                old(self).waiting(),
                old(self).carrier_at_hand(),
                old(self).setup().compression@,
                old(self).pending(),
                final(self).waiting(),
                final(self).pending(),
                done,
            ),
            final(self).carrier_at_hand() == if done is Ok {
                None
            } else {
                old(self).carrier_at_hand()
            },
    {
        match self.write_accumulated() {
            Ok(()) => {},
            Err(e) => {
                self.turned_down = Ghost(
                    self.turned_down@.push(
                        Refusal {
                            event: BatchEvent::CarrierComplete { carrier: active_view(carrier) },
                            error: e,
                        },
                    ),
                );
                return Err(e);
            },
        }
        self.current_carrier_info = None;
        self.taken = Ghost(
            self.taken@.push(BatchEvent::CarrierComplete { carrier: active_view(carrier) }),
        );
        Ok(())
    }

    fn finalize(&mut self) -> (done: Result<(), SsimError>)
        ensures
            written(
                old(self).waiting(),
                old(self).carrier_at_hand(),
                old(self).setup().compression@,
                old(self).pending(),
                final(self).waiting(),
                final(self).pending(),
                done,
            ),
            final(self).carrier_at_hand() == old(self).carrier_at_hand(),
    {
        match self.write_accumulated() {
            Ok(()) => {},
            Err(e) => {
                self.turned_down = Ghost(
                    self.turned_down@.push(Refusal { event: BatchEvent::Finalize, error: e }),
                );
                return Err(e);
            },
        }
        self.taken = Ghost(self.taken@.push(BatchEvent::Finalize));
        Ok(())
    }
}

} // verus!
