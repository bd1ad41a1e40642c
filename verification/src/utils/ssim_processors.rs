//! The output strategies that keep their result in memory: one joined table,
//! or the three tables of carriers, flight legs and segments.

use crate::converters::ssim_tables::{
    carrier_key_columns, carrier_key_names, combine_all_dataframes, combined_of,
    joined_column_names, lemma_carrier_key_columns, lemma_joined_columns_differ,
    lemma_record_tables_combine, segment_detail_names, segment_details,
};
use crate::frames::{frame_columns, frame_height, text_columns, to_frame};
use crate::generators::ssim_dataframe::{
    carrier_cells, carrier_column_names, carrier_list, carrier_table, convert_to_dataframes,
    flight_column_names, flight_table, lemma_carrier_columns_differ, lemma_flight_columns_differ,
    lemma_segment_columns_differ, segment_column_names, segment_table,
};
use crate::records::carrier_record::{CarrierRecord, CarrierView};
use crate::records::flight_leg_records::FlightLegRecord;
use crate::records::segment_records::SegmentRecords;
use crate::table::{
    first_of_each, holds_key, lemma_first_of_each, lemma_same_key_in_two, no_repeats, same_key,
    stacked, stacked_rows, table_views, CellView, Table, TableView,
};
use crate::utils::errors::SsimError;
use crate::utils::ssim_parser::active_view;
use crate::utils::ssim_reader::{
    flight_views, line_views, run, segment_views, BatchEvent, BatchProcessor, Refusal, SsimReader,
    DEFAULT_BATCH_SIZE,
};
use polars::prelude::DataFrame;
use vstd::prelude::*;

verus! {

/// The plain values of a list of tables grown by one.
pub proof fn lemma_tables_push(tables: Seq<Table>, table: Table)
    ensures
        table_views(tables.push(table)) == table_views(tables).push(table@),
{
}

/// The joined table of a batch.
pub open spec fn batch_table(event: BatchEvent, condense_segments: bool) -> Option<TableView> {
    match event {
        BatchEvent::Batch { carrier, flights, segments } => combined_of(
            carrier_table(carrier_list(carrier)),
            flight_table(flights),
            segment_table(segments),
            condense_segments,
        ),
        _ => None,
    }
}

/// The joined tables that wait to be stacked: one for every batch since the
/// last end of input whose joined table has rows.
pub open spec fn waiting_tables(events: Seq<BatchEvent>, condense_segments: bool) -> Seq<TableView>
    decreases events.len(),
{
    if events.len() == 0 {
        Seq::empty()
    } else {
        let before = waiting_tables(events.drop_last(), condense_segments);
        match events.last() {
            BatchEvent::Batch { .. } => match batch_table(events.last(), condense_segments) {
                Some(table) => if table.rows.len() > 0 {
                    before.push(table)
                } else {
                    before
                },
                None => before,
            },
            BatchEvent::CarrierComplete { .. } => before,
            BatchEvent::Finalize => Seq::empty(),
        }
    }
}

/// The joined table of everything taken in: the waiting tables stacked at
/// the last end of input. There is none before the first end of input.
pub open spec fn combined_result(events: Seq<BatchEvent>, condense_segments: bool) -> Option<
    TableView,
>
    decreases events.len(),
{
    if events.len() == 0 {
        None
    } else {
        match events.last() {
            BatchEvent::Finalize => stacked(
                waiting_tables(events.drop_last(), condense_segments),
            ),
            _ => combined_result(events.drop_last(), condense_segments),
        }
    }
}

/// Whether all tables of a list have the given columns.
pub open spec fn all_have_columns(tables: Seq<TableView>, names: Seq<Seq<char>>) -> bool {
    forall|k: int| 0 <= k < tables.len() ==> (#[trigger] tables[k]).names == names
}

/// The joined tables that wait to be stacked all have the same columns, so
/// that they can be stacked.
pub proof fn lemma_waiting_tables_agree(events: Seq<BatchEvent>, condense_segments: bool)
    ensures
        all_have_columns(
            waiting_tables(events, condense_segments),
            joined_column_names(condense_segments),
        ),
        stacked(waiting_tables(events, condense_segments)) is Some,
    decreases events.len(),
{
    if events.len() > 0 {
        lemma_waiting_tables_agree(events.drop_last(), condense_segments);
        match events.last() {
            BatchEvent::Batch { carrier, flights, segments } => {
                lemma_record_tables_combine(
                    carrier_list(carrier),
                    flights,
                    segments,
                    condense_segments,
                );
            },
            _ => {},
        }
    }
}

/// A table that may be missing, as plain values.
pub open spec fn maybe_table(table: Option<Table>) -> Option<TableView> {
    match table {
        Some(t) => Some(t@),
        None => None,
    }
}

/// The strategy that joins every batch into one table and stacks the
/// tables when the input ends.
pub struct CombinedDataFrameProcessor {
    batches: Vec<Table>,
    result: Option<Table>,
    condense_segments: bool,
    taken: Ghost<Seq<BatchEvent>>,
}

impl CombinedDataFrameProcessor {
    /// A strategy that has taken in nothing yet.
    pub fn new(condense_segments: bool) -> (processor: CombinedDataFrameProcessor)
        ensures
            processor.sound(),
            processor.handled() == Seq::<BatchEvent>::empty(),
            processor.setup() == condense_segments,
    {
        let processor = CombinedDataFrameProcessor {
            batches: Vec::new(),
            result: None,
            condense_segments,
            taken: Ghost(Seq::empty()),
        };
        assert(table_views(processor.batches@) == Seq::<TableView>::empty());
        processor
    }

    /// The joined table of everything taken in up to the last end of input;
    /// the empty table when the input has not ended yet.
    pub fn into_result(self) -> (table: Table)
        requires
            self.sound(),
        ensures
            table@ == match combined_result(self.handled(), self.setup()) {
                Some(t) => t,
                None => TableView::empty(),
            },
    {
        match self.result {
            Some(table) => table,
            None => Table::empty(),
        }
    }
}

impl Default for CombinedDataFrameProcessor {
    /// A strategy that has taken in nothing yet and gives a row per segment.
    fn default() -> (processor: CombinedDataFrameProcessor)
        ensures
            processor.sound(),
            processor.handled() == Seq::<BatchEvent>::empty(),
            processor.setup() == false,
    {
        CombinedDataFrameProcessor::new(false)
    }
}

impl BatchProcessor for CombinedDataFrameProcessor {
    /// Whether segments are gathered into one cell per leg.
    type Setup = bool;

    closed spec fn setup(&self) -> bool {
        self.condense_segments
    }

    closed spec fn sound(&self) -> bool {
        &&& table_views(self.batches@) == waiting_tables(self.taken@, self.condense_segments)
        &&& maybe_table(self.result) == combined_result(self.taken@, self.condense_segments)
    }

    open spec fn reliable(&self) -> bool {
        true
    }

    closed spec fn handled(&self) -> Seq<BatchEvent> {
        self.taken@
    }

    open spec fn refused(&self) -> Seq<Refusal> {
        Seq::empty()
    }

    fn process_batch(
        &mut self,
        flight_batch: Vec<FlightLegRecord>,
        segment_batch: Vec<SegmentRecords>,
        carrier: Option<&CarrierRecord>,
    ) -> (done: Result<(), SsimError>) {
        let ghost before = self.taken@;
        let ghost condense = self.condense_segments;
        let (carrier_table, flight_table, segment_table) = convert_to_dataframes(
            carrier,
            flight_batch,
            segment_batch,
        );
        proof {
            lemma_record_tables_combine(
                carrier_list(active_view(carrier)),
                flight_views(flight_batch@),
                segment_views(segment_batch@),
                condense,
            );
        }
        let table = match combine_all_dataframes(
            &carrier_table,
            &flight_table,
            &segment_table,
            self.condense_segments,
        ) {
            Ok(table) => table,
            Err(e) => {
                return Err(e);
            },
        };
        let ghost event = BatchEvent::Batch {
            carrier: active_view(carrier),
            flights: flight_views(flight_batch@),
            segments: segment_views(segment_batch@),
        };
        proof {
            assert(before.push(event).drop_last() == before);
            assert(batch_table(event, condense) == Some(table@));
        }
        if table.height() > 0 {
            proof {
                lemma_tables_push(self.batches@, table);
            }
            self.batches.push(table);
        }
        self.taken = Ghost(before.push(event));
        Ok(())
    }

    fn on_carrier_complete(&mut self, carrier: Option<&CarrierRecord>) -> (done: Result<
        (),
        SsimError,
    >) {
        let ghost before = self.taken@;
        let ghost event = BatchEvent::CarrierComplete { carrier: active_view(carrier) };
        proof {
            assert(before.push(event).drop_last() == before);
        }
        self.taken = Ghost(before.push(event));
        Ok(())
    }

    fn finalize(&mut self) -> (done: Result<(), SsimError>) {
        let ghost before = self.taken@;
        proof {
            lemma_waiting_tables_agree(before, self.condense_segments);
        }
        let mut batches: Vec<Table> = Vec::new();
        core::mem::swap(&mut batches, &mut self.batches);
        let table = match Table::stack(batches) {
            Ok(table) => table,
            Err(e) => {
                return Err(e);
            },
        };
        proof {
            assert(before.push(BatchEvent::Finalize).drop_last() == before);
        }
        self.result = Some(table);
        self.taken = Ghost(before.push(BatchEvent::Finalize));
        assert(table_views(self.batches@) == Seq::<TableView>::empty());
        Ok(())
    }
}

/// The three tables of a batch: its carrier, its flight legs, its segments.
pub open spec fn batch_tables(event: BatchEvent) -> (TableView, TableView, TableView) {
    match event {
        BatchEvent::Batch { carrier, flights, segments } => (
            carrier_table(carrier_list(carrier)),
            flight_table(flights),
            segment_table(segments),
        ),
        _ => (TableView::empty(), TableView::empty(), TableView::empty()),
    }
}

/// `tables` with `table` behind it, unless `table` has no rows.
pub open spec fn with_rows(tables: Seq<TableView>, table: TableView) -> Seq<TableView> {
    if table.rows.len() > 0 {
        tables.push(table)
    } else {
        tables
    }
}

/// The carrier, flight and segment tables that wait to be stacked: those
/// with rows, of every batch since the last end of input.
pub open spec fn waiting_split(events: Seq<BatchEvent>) -> (
    Seq<TableView>,
    Seq<TableView>,
    Seq<TableView>,
)
    decreases events.len(),
{
    if events.len() == 0 {
        (Seq::empty(), Seq::empty(), Seq::empty())
    } else {
        let before = waiting_split(events.drop_last());
        match events.last() {
            BatchEvent::Batch { .. } => {
                let tables = batch_tables(events.last());
                (
                    with_rows(before.0, tables.0),
                    with_rows(before.1, tables.1),
                    with_rows(before.2, tables.2),
                )
            },
            BatchEvent::CarrierComplete { .. } => before,
            BatchEvent::Finalize => (Seq::empty(), Seq::empty(), Seq::empty()),
        }
    }
}

/// The tables that wait to be stacked have the columns of their record
/// family, so that they can be stacked.
pub proof fn lemma_waiting_split_agrees(events: Seq<BatchEvent>)
    ensures
        all_have_columns(waiting_split(events).0, carrier_column_names()),
        all_have_columns(waiting_split(events).1, flight_column_names()),
        all_have_columns(waiting_split(events).2, segment_column_names()),
        split_of(waiting_split(events)) is Some,
    decreases events.len(),
{
    if events.len() > 0 {
        lemma_waiting_split_agrees(events.drop_last());
    }
}

/// What stacking the waiting tables gives: the carrier table with one row
/// per carrier (of rows that bear the same airline designator and
/// control/duplicate indicator the first stays), the flight table and the
/// segment table.
pub open spec fn split_of(waiting: (Seq<TableView>, Seq<TableView>, Seq<TableView>)) -> Option<
    (TableView, TableView, TableView),
> {
    match (stacked(waiting.0), stacked(waiting.1), stacked(waiting.2)) {
        (Some(carriers), Some(flights), Some(segments)) => Some(
            (
                TableView {
                    names: carriers.names,
                    rows: first_of_each(carriers.rows, carrier_key_columns()),
                },
                flights,
                segments,
            ),
        ),
        _ => None,
    }
}

/// The three tables of everything taken in, as they stand since the last
/// end of input. There are none before the first end of input.
pub open spec fn split_result(events: Seq<BatchEvent>) -> Option<(TableView, TableView, TableView)>
    decreases events.len(),
{
    if events.len() == 0 {
        None
    } else {
        match events.last() {
            BatchEvent::Finalize => split_of(waiting_split(events.drop_last())),
            _ => split_result(events.drop_last()),
        }
    }
}

/// Three tables that may be missing, as plain values.
pub open spec fn maybe_tables(tables: Option<(Table, Table, Table)>) -> Option<
    (TableView, TableView, TableView),
> {
    match tables {
        Some(t) => Some((t.0@, t.1@, t.2@)),
        None => None,
    }
}

/// The strategy that keeps carriers, flight legs and segments in three
/// tables of their own.
pub struct SplitDataFrameProcessor {
    carrier_batches: Vec<Table>,
    flight_batches: Vec<Table>,
    segment_batches: Vec<Table>,
    result: Option<(Table, Table, Table)>,
    taken: Ghost<Seq<BatchEvent>>,
}

impl SplitDataFrameProcessor {
    /// A strategy that has taken in nothing yet.
    pub fn new() -> (processor: SplitDataFrameProcessor)
        ensures
            processor.sound(),
            processor.handled() == Seq::<BatchEvent>::empty(),
    {
        let processor = SplitDataFrameProcessor {
            carrier_batches: Vec::new(),
            flight_batches: Vec::new(),
            segment_batches: Vec::new(),
            result: None,
            taken: Ghost(Seq::empty()),
        };
        assert(table_views(processor.carrier_batches@) == Seq::<TableView>::empty());
        assert(table_views(processor.flight_batches@) == Seq::<TableView>::empty());
        assert(table_views(processor.segment_batches@) == Seq::<TableView>::empty());
        processor
    }

    /// The carrier, flight and segment tables of everything taken in up to
    /// the last end of input. Before the first end of input there is no
    /// result to give.
    pub fn into_result(self) -> (tables: Result<(Table, Table, Table), SsimError>)
        requires
            self.sound(),
        ensures
            match tables {
                Ok(t) => split_result(self.handled()) == Some((t.0@, t.1@, t.2@)),
                Err(e) => split_result(self.handled()) is None && e is NotFinalized,
            },
    {
        match self.result {
            Some(tables) => Ok(tables),
            None => Err(SsimError::NotFinalized),
        }
    }
}

impl Default for SplitDataFrameProcessor {
    /// A strategy that has taken in nothing yet.
    fn default() -> (processor: SplitDataFrameProcessor)
        ensures
            processor.sound(),
            processor.handled() == Seq::<BatchEvent>::empty(),
    {
        SplitDataFrameProcessor::new()
    }
}

impl BatchProcessor for SplitDataFrameProcessor {
    type Setup = ();

    open spec fn setup(&self) -> () {
        ()
    }

    open spec fn reliable(&self) -> bool {
        true
    }

    closed spec fn sound(&self) -> bool {
        &&& (
            table_views(self.carrier_batches@),
            table_views(self.flight_batches@),
            table_views(self.segment_batches@),
        ) == waiting_split(self.taken@)
        &&& maybe_tables(self.result) == split_result(self.taken@)
    }

    closed spec fn handled(&self) -> Seq<BatchEvent> {
        self.taken@
    }

    open spec fn refused(&self) -> Seq<Refusal> {
        Seq::empty()
    }

    fn process_batch(
        &mut self,
        flight_batch: Vec<FlightLegRecord>,
        segment_batch: Vec<SegmentRecords>,
        carrier: Option<&CarrierRecord>,
    ) -> (done: Result<(), SsimError>) {
        let ghost before = self.taken@;
        let ghost event = BatchEvent::Batch {
            carrier: active_view(carrier),
            flights: flight_views(flight_batch@),
            segments: segment_views(segment_batch@),
        };
        let (carrier_table, flight_table, segment_table) = convert_to_dataframes(
            carrier,
            flight_batch,
            segment_batch,
        );
        proof {
            assert(before.push(event).drop_last() == before);
        }
        if carrier_table.height() > 0 {
            proof {
                lemma_tables_push(self.carrier_batches@, carrier_table);
            }
            self.carrier_batches.push(carrier_table);
        }
        if flight_table.height() > 0 {
            proof {
                lemma_tables_push(self.flight_batches@, flight_table);
            }
            self.flight_batches.push(flight_table);
        }
        if segment_table.height() > 0 {
            proof {
                lemma_tables_push(self.segment_batches@, segment_table);
            }
            self.segment_batches.push(segment_table);
        }
        self.taken = Ghost(before.push(event));
        Ok(())
    }

    fn on_carrier_complete(&mut self, carrier: Option<&CarrierRecord>) -> (done: Result<
        (),
        SsimError,
    >) {
        let ghost before = self.taken@;
        let ghost event = BatchEvent::CarrierComplete { carrier: active_view(carrier) };
        proof {
            assert(before.push(event).drop_last() == before);
        }
        self.taken = Ghost(before.push(event));
        Ok(())
    }

    fn finalize(&mut self) -> (done: Result<(), SsimError>) {
        let ghost before = self.taken@;
        proof {
            lemma_waiting_split_agrees(before);
        }
        let mut carrier_batches: Vec<Table> = Vec::new();
        let mut flight_batches: Vec<Table> = Vec::new();
        let mut segment_batches: Vec<Table> = Vec::new();
        core::mem::swap(&mut carrier_batches, &mut self.carrier_batches);
        core::mem::swap(&mut flight_batches, &mut self.flight_batches);
        core::mem::swap(&mut segment_batches, &mut self.segment_batches);
        let carriers = match Table::stack(carrier_batches) {
            Ok(table) => table,
            Err(e) => {
                return Err(e);
            },
        };
        let flights = match Table::stack(flight_batches) {
            Ok(table) => table,
            Err(e) => {
                return Err(e);
            },
        };
        let segments = match Table::stack(segment_batches) {
            Ok(table) => table,
            Err(e) => {
                return Err(e);
            },
        };
        let carriers = if carriers.height() == 0 {
            assert(first_of_each(carriers@.rows, carrier_key_columns()) == carriers@.rows);
            carriers
        } else {
            proof {
                let waiting = waiting_split(before).0;
                if waiting.len() == 0 {
                    assert(stacked_rows(waiting) == Seq::<Seq<CellView>>::empty());
                }
                assert(waiting[0].names == carrier_column_names());
                lemma_carrier_key_columns();
            }
            match carriers.unique_by(&carrier_key_names()) {
                Ok(table) => table,
                Err(e) => {
                    return Err(e);
                },
            }
        };
        proof {
            assert(before.push(BatchEvent::Finalize).drop_last() == before);
        }
        self.result = Some((carriers, flights, segments));
        self.taken = Ghost(before.push(BatchEvent::Finalize));
        assert(table_views(self.carrier_batches@) == Seq::<TableView>::empty());
        assert(table_views(self.flight_batches@) == Seq::<TableView>::empty());
        assert(table_views(self.segment_batches@) == Seq::<TableView>::empty());
        Ok(())
    }
}

/// The batch size that is meant by an optional one.
pub open spec fn batch_size_of(batch_size: Option<usize>) -> nat {
    match batch_size {
        Some(n) => n as nat,
        None => DEFAULT_BATCH_SIZE as nat,
    }
}

/// Whether segments are condensed under an optional choice: they are not
/// unless it is asked for.
pub open spec fn condensed_by(condense_segments: Option<bool>) -> bool {
    match condense_segments {
        Some(choice) => choice,
        None => false,
    }
}

/// Parses the lines of a schedule file into one joined table: every flight
/// leg with its carrier and its segments.
///
/// The lines are read in batches of `batch_size` records (10,000 unless
/// told otherwise), every batch is joined, and the joined tables are
/// stacked in order. Without `condense_segments` a leg gives a row per
/// segment; with it, a leg gives one row whose cell `segment_data` holds
/// all its segments.
pub fn parse_to_table(
    lines: &Vec<String>,
    batch_size: Option<usize>,
    condense_segments: Option<bool>,
) -> (table: Table)
    ensures
        Some(table@) == combined_result(
            run(batch_size_of(batch_size), line_views(lines@)),
            condensed_by(condense_segments),
        ),
{
    let condense = match condense_segments {
        Some(choice) => choice,
        None => false,
    };
    let mut reader = SsimReader::new(batch_size);
    let mut processor = CombinedDataFrameProcessor::new(condense);
    let ghost events = run(batch_size_of(batch_size), line_views(lines@));
    let done = reader.process(lines, &mut processor);
    proof {
        assert(Seq::<BatchEvent>::empty() + events == events);
        assert(events.last() == BatchEvent::Finalize);
        lemma_waiting_tables_agree(events.drop_last(), condense);
    }
    processor.into_result()
}

/// Parses the lines of a schedule file into three tables: the carriers,
/// the flight legs and the segments.
///
/// Flight legs and segments stand in the order of their lines. A carrier
/// stands once for every batch that was handed on under it; among equal
/// carrier rows only the first stays.
pub fn parse_to_split_tables(lines: &Vec<String>, batch_size: Option<usize>) -> (tables: (
    Table,
    Table,
    Table,
))
    ensures
        Some((tables.0@, tables.1@, tables.2@)) == split_result(
            run(batch_size_of(batch_size), line_views(lines@)),
        ),
{
    let mut reader = SsimReader::new(batch_size);
    let mut processor = SplitDataFrameProcessor::new();
    let ghost events = run(batch_size_of(batch_size), line_views(lines@));
    let done = reader.process(lines, &mut processor);
    proof {
        assert(Seq::<BatchEvent>::empty() + events == events);
        assert(events.last() == BatchEvent::Finalize);
        lemma_waiting_split_agrees(events.drop_last());
    }
    match processor.into_result() {
        Ok(tables) => tables,
        Err(_) => (Table::empty(), Table::empty(), Table::empty()),
    }
}

/// The carriers under which batches were handed on since the last end of
/// input, one per batch, in order.
pub open spec fn batch_carriers(events: Seq<BatchEvent>) -> Seq<CarrierView>
    decreases events.len(),
{
    if events.len() == 0 {
        Seq::empty()
    } else {
        let before = batch_carriers(events.drop_last());
        match events.last() {
            BatchEvent::Batch { carrier, .. } => match carrier {
                Some(c) => before.push(c),
                None => before,
            },
            BatchEvent::CarrierComplete { .. } => before,
            BatchEvent::Finalize => Seq::empty(),
        }
    }
}

/// The carrier rows that wait to be stacked are the rows of the carriers
/// under which batches were handed on.
pub proof fn lemma_waiting_carrier_rows(events: Seq<BatchEvent>)
    ensures
        stacked_rows(waiting_split(events).0) == batch_carriers(events).map_values(
            |c: CarrierView| carrier_cells(c),
        ),
    decreases events.len(),
{
    if events.len() > 0 {
        let head = events.drop_last();
        lemma_waiting_carrier_rows(head);
        let before = waiting_split(head).0;
        let known = batch_carriers(head);
        match events.last() {
            BatchEvent::Batch { carrier, .. } => {
                match carrier {
                    Some(c) => {
                        let table = carrier_table(carrier_list(carrier));
                        assert(table.rows == seq![carrier_cells(c)]);
                        assert(before.push(table).drop_last() == before);
                        assert(known.push(c).map_values(|c: CarrierView| carrier_cells(c))
                            == known.map_values(|c: CarrierView| carrier_cells(c)).push(
                            carrier_cells(c),
                        ));
                        assert(stacked_rows(before) + seq![carrier_cells(c)] == stacked_rows(
                            before,
                        ).push(carrier_cells(c)));
                    },
                    None => {
                        let table = carrier_table(carrier_list(carrier));
                        assert(table.rows.len() == 0);
                    },
                }
            },
            _ => {},
        }
    }
}

/// Whether a row of a carrier table bears the airline designator and the
/// control/duplicate indicator of a carrier.
pub open spec fn bears_key_of(row: Seq<CellView>, carrier: CarrierView) -> bool {
    &&& row.len() >= 2
    &&& row[0] == CellView::Text(carrier.airline_designator)
    &&& row[1] == CellView::Text(carrier.control_duplicate_indicator)
}

/// A row made of a carrier bears its key.
proof fn lemma_carrier_row_bears_key(carrier: CarrierView)
    ensures
        bears_key_of(carrier_cells(carrier), carrier),
{
}

/// Of the rows of a list of carriers, those that stay bear different keys,
/// and the key of every carrier stays.
proof fn lemma_carrier_keys_kept(carriers: Seq<CarrierView>)
    ensures
        ({
            let kept = first_of_each(
                carriers.map_values(|c: CarrierView| carrier_cells(c)),
                carrier_key_columns(),
            );
            &&& forall|i: int, j: int|
                0 <= i < j < kept.len() ==> !(kept[i][0] == kept[j][0] && kept[i][1] == kept[j][1])
            &&& forall|k: int|
                #![trigger carriers[k]]
                0 <= k < carriers.len() ==> exists|i: int|
                    0 <= i < kept.len() && bears_key_of(#[trigger] kept[i], carriers[k])
        }),
{
    let rows = carriers.map_values(|c: CarrierView| carrier_cells(c));
    let on = carrier_key_columns();
    let kept = first_of_each(rows, on);
    lemma_first_of_each(rows, on);
    assert forall|i: int, j: int| 0 <= i < j < kept.len() implies !(kept[i][0] == kept[j][0]
        && kept[i][1] == kept[j][1]) by {
        lemma_same_key_in_two(kept[i], kept[j]);
    }
    assert forall|k: int| #![trigger carriers[k]] 0 <= k < carriers.len() implies exists|i: int|
        0 <= i < kept.len() && bears_key_of(#[trigger] kept[i], carriers[k]) by {
        assert(rows[k] == carrier_cells(carriers[k]));
        lemma_carrier_row_bears_key(carriers[k]);
        assert(holds_key(kept, rows[k], on));
        let i = choose|i: int| 0 <= i < kept.len() && same_key(#[trigger] kept[i], rows[k], on);
        lemma_same_key_in_two(kept[i], rows[k]);
        assert(rows.contains(kept[i]));
        let at = choose|at: int| 0 <= at < rows.len() && rows[at] == kept[i];
        assert(rows[at] == carrier_cells(carriers[at]));
        lemma_carrier_row_bears_key(carriers[at]);
        assert(bears_key_of(kept[i], carriers[k]));
    }
}

/// One row per carrier.
///
/// When the input has ended, the carrier table holds one row for every
/// carrier under which a batch was handed on: no two of its rows bear the
/// same airline designator and control/duplicate indicator, every such
/// carrier has a row with its designator and indicator, and of the headers
/// that name one carrier the first gives the row.
pub proof fn lemma_one_row_per_carrier(events: Seq<BatchEvent>)
    ensures
        split_result(events.push(BatchEvent::Finalize)) matches Some(tables) && ({
            &&& tables.0.rows == first_of_each(
                batch_carriers(events).map_values(|c: CarrierView| carrier_cells(c)),
                carrier_key_columns(),
            )
            &&& forall|i: int, j: int|
                0 <= i < j < tables.0.rows.len() ==> !(tables.0.rows[i][0] == tables.0.rows[j][0]
                    && tables.0.rows[i][1] == tables.0.rows[j][1])
            &&& forall|k: int|
                #![trigger batch_carriers(events)[k]]
                0 <= k < batch_carriers(events).len() ==> exists|i: int|
                    0 <= i < tables.0.rows.len() && bears_key_of(
                        #[trigger] tables.0.rows[i],
                        batch_carriers(events)[k],
                    )
        }),
{
    let all = events.push(BatchEvent::Finalize);
    assert(all.drop_last() == events);
    lemma_waiting_split_agrees(events);
    lemma_waiting_carrier_rows(events);
    let carriers = batch_carriers(events);
    let rows = carriers.map_values(|c: CarrierView| carrier_cells(c));
    let waiting = waiting_split(events).0;
    if waiting.len() == 0 {
        assert(stacked_rows(waiting) == Seq::<Seq<CellView>>::empty());
    }
    lemma_carrier_keys_kept(carriers);
    let stack = stacked(waiting);
    assert(stack is Some);
    assert(stack->0.rows == rows);
    assert(split_result(all) == split_of(waiting_split(events)));
    let tables = split_result(all)->0;
    assert(tables.0.rows == first_of_each(rows, carrier_key_columns()));
}

/// The columns of texts that a table comes to in a data frame; gathered
/// segments stand as JSON arrays.
pub open spec fn framed_columns(table: TableView) -> Seq<(Seq<char>, Seq<Option<Seq<char>>>)> {
    text_columns(table, segment_details())
}

/// Tables that all have the same columns stack into a table with these
/// columns, or into the empty table when there are none.
pub proof fn lemma_stacked_columns(tables: Seq<TableView>, names: Seq<Seq<char>>)
    requires
        all_have_columns(tables, names),
        no_repeats(names),
    ensures
        stacked(tables) matches Some(table) && no_repeats(table.names),
{
    if tables.len() > 0 {
        assert(tables[0].names == names);
    }
}

/// Parses the lines of a schedule file into one data frame: the joined
/// table of `parse_to_table`, every column a column of texts and every
/// row a row of the table.
pub fn ssim_to_dataframe(
    lines: &Vec<String>,
    batch_size: Option<usize>,
    condense_segments: Option<bool>,
) -> (frame: Result<DataFrame, SsimError>)
    ensures
        combined_result(
            run(batch_size_of(batch_size), line_views(lines@)),
            condensed_by(condense_segments),
        ) matches Some(table) && frame matches Ok(made) && frame_columns(made) == framed_columns(
            table,
        ) && frame_height(made) == table.rows.len(),
{
    let table = parse_to_table(lines, batch_size, condense_segments);
    proof {
        let events = run(batch_size_of(batch_size), line_views(lines@));
        let condense = condensed_by(condense_segments);
        assert(events.last() == BatchEvent::Finalize);
        lemma_waiting_tables_agree(events.drop_last(), condense);
        lemma_joined_columns_differ(condense);
        lemma_stacked_columns(
            waiting_tables(events.drop_last(), condense),
            joined_column_names(condense),
        );
    }
    to_frame(&table, &segment_detail_names())
}

/// Parses the lines of a schedule file into three data frames: the tables
/// of `parse_to_split_tables`, every column a column of texts.
pub fn ssim_to_dataframes(lines: &Vec<String>, batch_size: Option<usize>) -> (frames: Result<
    (DataFrame, DataFrame, DataFrame),
    SsimError,
>)
    ensures
        split_result(run(batch_size_of(batch_size), line_views(lines@))) matches Some(tables)
            && frames matches Ok(made) && ({
            &&& frame_columns(made.0) == framed_columns(tables.0)
            &&& frame_height(made.0) == tables.0.rows.len()
            &&& frame_columns(made.1) == framed_columns(tables.1)
            &&& frame_height(made.1) == tables.1.rows.len()
            &&& frame_columns(made.2) == framed_columns(tables.2)
            &&& frame_height(made.2) == tables.2.rows.len()
        }),
{
    let (carriers, flights, segments) = parse_to_split_tables(lines, batch_size);
    let names = segment_detail_names();
    proof {
        let events = run(batch_size_of(batch_size), line_views(lines@));
        assert(events.last() == BatchEvent::Finalize);
        lemma_waiting_split_agrees(events.drop_last());
        lemma_carrier_columns_differ();
        lemma_flight_columns_differ();
        lemma_segment_columns_differ();
        let waiting = waiting_split(events.drop_last());
        lemma_stacked_columns(waiting.0, carrier_column_names());
        lemma_stacked_columns(waiting.1, flight_column_names());
        lemma_stacked_columns(waiting.2, segment_column_names());
    }
    let carriers = match to_frame(&carriers, &names) {
        Ok(frame) => frame,
        Err(e) => {
            return Err(e);
        },
    };
    let flights = match to_frame(&flights, &names) {
        Ok(frame) => frame,
        Err(e) => {
            return Err(e);
        },
    };
    let segments = match to_frame(&segments, &names) {
        Ok(frame) => frame,
        Err(e) => {
            return Err(e);
        },
    };
    Ok((carriers, flights, segments))
}

} // verus!
