//! What holds of the joined table, whatever the batch size.
//!
//! A join looks for the segments of a leg inside the leg's batch, and a
//! batch never reaches over the trailer that closes a carrier section. The
//! join finds all segments of a leg there, and no others, as long as the
//! segments of a section bear the key of the leg that they follow and of no
//! other leg of the section. On such inputs the joined table is made of
//! one join for every carrier section, of the legs of the section with its
//! segments, and the batch size has no say in it. What another section
//! holds does not matter: a flight may come again after a trailer.

use crate::converters::ssim_tables::{
    bookkeeping_columns, carrier_details, carrier_key, joined_column_names,
    lemma_record_tables_combine, segment_details, segment_key,
};
use crate::generators::ssim_dataframe::{
    carrier_cells, carrier_column_names, carrier_list, carrier_table, flight_cells,
    flight_column_names, flight_table, segment_cells, segment_column_names,
};
use crate::records::carrier_record::CarrierView;
use crate::records::flight_leg_records::FlightLegView;
use crate::records::segment_records::SegmentView;
use crate::table::{
    columns_at, columns_kept, joined_rows, joined_with_one, keys_agree, lemma_joined_rows_concat,
    lemma_joined_rows_same_partners, lemma_joined_rows_with_one, lemma_partners_concat, partners,
    pick, pick_names, stacked_rows, CellView, TableView,
};
use crate::utils::reader_laws::{carrier_after, orderly};
use crate::utils::ssim_parser::{flight_leg_of, kind_of, parsable, segment_of, LineKind};
use crate::utils::ssim_processors::{
    batch_table, combined_result, lemma_waiting_tables_agree, waiting_tables,
};
use crate::utils::ssim_reader::{run, BatchEvent, Pending};
use crate::utils::table_laws::{goes_on, lemma_reader_goes_on};
use vstd::prelude::*;

verus! {

/// The columns of a flight table that outlive the loss of the bookkeeping
/// columns.
pub open spec fn kept_columns() -> Seq<int> {
    columns_kept(flight_column_names(), bookkeeping_columns())
}

/// The names of a flight table joined with its carrier.
pub open spec fn leg_column_names() -> Seq<Seq<char>> {
    pick_names(flight_column_names(), kept_columns()) + carrier_details()
}

/// The row of a leg before it is joined with its segments: its own cells
/// without the bookkeeping, followed by the details of the carrier, or by
/// empty cells where the leg names another airline than the carrier.
pub open spec fn leg_row(flight: FlightLegView, carrier: CarrierView) -> Seq<CellView> {
    joined_with_one(
        pick(flight_cells(flight), kept_columns()),
        columns_at(pick_names(flight_column_names(), kept_columns()), carrier_key())->0,
        carrier_cells(carrier),
        columns_at(carrier_column_names(), carrier_key())->0,
        columns_at(carrier_column_names(), carrier_details())->0,
    )
}

/// The rows of some legs under one carrier.
pub open spec fn leg_rows(flights: Seq<FlightLegView>, carrier: CarrierView) -> Seq<Seq<CellView>> {
    flights.map_values(|f: FlightLegView| leg_row(f, carrier))
}

/// The rows of some segments.
pub open spec fn segment_rows(segments: Seq<SegmentView>) -> Seq<Seq<CellView>> {
    segments.map_values(|s: SegmentView| segment_cells(s))
}

/// The key columns of a leg row.
pub open spec fn legs_on() -> Seq<int> {
    columns_at(leg_column_names(), segment_key())->0
}

/// The key columns of a segment row.
pub open spec fn segments_on() -> Seq<int> {
    columns_at(segment_column_names(), segment_key())->0
}

/// The detail columns of a segment row.
pub open spec fn segments_taken() -> Seq<int> {
    columns_at(segment_column_names(), segment_details())->0
}

/// Whether a segment row bears the key of a leg row: the same flight
/// designator, control/duplicate indicator and leg sequence number.
pub open spec fn meets(leg: Seq<CellView>, segment: Seq<CellView>) -> bool {
    keys_agree(pick(leg, legs_on()), pick(segment, segments_on()))
}

/// The segment rows that bear the key of a leg row.
pub open spec fn partners_of(leg: Seq<CellView>, segments: Seq<Seq<CellView>>) -> Seq<
    Seq<CellView>,
> {
    partners(leg, legs_on(), segments, segments_on())
}

/// Leg rows joined with segment rows.
pub open spec fn joined(
    legs: Seq<Seq<CellView>>,
    segments: Seq<Seq<CellView>>,
    condense_segments: bool,
) -> Seq<Seq<CellView>> {
    joined_rows(legs, legs_on(), segments, segments_on(), segments_taken(), condense_segments)
}

/// The joined table of a batch holds its leg rows joined with its segment
/// rows.
pub proof fn lemma_batch_rows(
    carrier: CarrierView,
    flights: Seq<FlightLegView>,
    segments: Seq<SegmentView>,
    condense_segments: bool,
)
    ensures
        batch_table(
            BatchEvent::Batch { carrier: Some(carrier), flights, segments },
            condense_segments,
        ) matches Some(table) && table.rows == joined(
            leg_rows(flights, carrier),
            segment_rows(segments),
            condense_segments,
        ),
{
    lemma_record_tables_combine(seq![carrier], flights, segments, condense_segments);
    let slim = flight_table(flights).rows.map_values(|r: Seq<CellView>| pick(r, kept_columns()));
    let left_on = columns_at(pick_names(flight_column_names(), kept_columns()), carrier_key())->0;
    let right_on = columns_at(carrier_column_names(), carrier_key())->0;
    let taken = columns_at(carrier_column_names(), carrier_details())->0;
    assert(carrier_list(Some(carrier)) == seq![carrier]);
    assert(carrier_table(seq![carrier]).rows == seq![carrier_cells(carrier)]);
    lemma_joined_rows_with_one(slim, left_on, carrier_cells(carrier), right_on, taken);
    assert(slim.map_values(
        |l: Seq<CellView>| joined_with_one(l, left_on, carrier_cells(carrier), right_on, taken),
    ) == leg_rows(flights, carrier));
}

/// The leg rows of the carrier section that is open after a run of lines,
/// in the order of the lines: one for every leg that was read since the
/// last trailer, under the carrier that was active when it was read.
pub open spec fn section_legs(lines: Seq<Seq<char>>) -> Seq<Seq<CellView>>
    decreases lines.len(),
{
    if lines.len() == 0 {
        Seq::empty()
    } else {
        let before = section_legs(lines.drop_last());
        match kind_of(lines.last()) {
            LineKind::Trailer => Seq::empty(),
            LineKind::FlightLeg => match carrier_after(None, lines.drop_last()) {
                Some(c) => if parsable(lines.last()) {
                    before.push(
                        leg_row(flight_leg_of(lines.last(), c.control_duplicate_indicator), c),
                    )
                } else {
                    before
                },
                None => before,
            },
            _ => before,
        }
    }
}

/// The segment rows of the carrier section that is open after a run of
/// lines: one for every segment that was read since the last trailer.
pub open spec fn section_segments(lines: Seq<Seq<char>>) -> Seq<Seq<CellView>>
    decreases lines.len(),
{
    if lines.len() == 0 {
        Seq::empty()
    } else {
        let before = section_segments(lines.drop_last());
        match kind_of(lines.last()) {
            LineKind::Trailer => Seq::empty(),
            LineKind::Segment => match carrier_after(None, lines.drop_last()) {
                Some(c) => if parsable(lines.last()) {
                    before.push(
                        segment_cells(segment_of(lines.last(), c.control_duplicate_indicator)),
                    )
                } else {
                    before
                },
                None => before,
            },
            _ => before,
        }
    }
}

/// The joined rows of the carrier sections that a trailer has closed: for
/// every such section, in turn, its legs joined with its segments.
pub open spec fn closed_sections(lines: Seq<Seq<char>>, condense_segments: bool) -> Seq<
    Seq<CellView>,
>
    decreases lines.len(),
{
    if lines.len() == 0 {
        Seq::empty()
    } else {
        let head = lines.drop_last();
        let before = closed_sections(head, condense_segments);
        if kind_of(lines.last()) == LineKind::Trailer {
            before + joined(section_legs(head), section_segments(head), condense_segments)
        } else {
            before
        }
    }
}

/// The joined rows of an input, section by section: those of the sections
/// that a trailer has closed, then those of the section that is still open
/// at the end.
pub open spec fn joined_by_section(lines: Seq<Seq<char>>, condense_segments: bool) -> Seq<
    Seq<CellView>,
> {
    closed_sections(lines, condense_segments) + joined(
        section_legs(lines),
        section_segments(lines),
        condense_segments,
    )
}

/// Whether the segments that come next follow a leg: the last line that was
/// neither a segment line nor passed over gave a flight leg.
pub open spec fn has_current_leg(start: Option<CarrierView>, lines: Seq<Seq<char>>) -> bool
    decreases lines.len(),
{
    if lines.len() == 0 {
        false
    } else {
        match kind_of(lines.last()) {
            LineKind::FlightLeg => carrier_after(start, lines.drop_last()) is Some && parsable(
                lines.last(),
            ),
            LineKind::Segment => has_current_leg(start, lines.drop_last()),
            LineKind::Skip => has_current_leg(start, lines.drop_last()),
            _ => false,
        }
    }
}

/// The joined rows of all that a run of events hands on, batch after batch.
pub open spec fn joined_delivered(events: Seq<BatchEvent>, condense_segments: bool) -> Seq<
    Seq<CellView>,
>
    decreases events.len(),
{
    if events.len() == 0 {
        Seq::empty()
    } else {
        joined_delivered(events.drop_last(), condense_segments) + event_rows(
            events.last(),
            condense_segments,
        )
    }
}

/// The joined rows of one event.
pub open spec fn event_rows(event: BatchEvent, condense_segments: bool) -> Seq<Seq<CellView>> {
    match batch_table(event, condense_segments) {
        Some(table) => table.rows,
        None => Seq::empty(),
    }
}

/// What has been joined of two runs of events is what has been joined of
/// the first, followed by what has been joined of the second.
pub proof fn lemma_joined_delivered_concat(
    first: Seq<BatchEvent>,
    second: Seq<BatchEvent>,
    condense_segments: bool,
)
    ensures
        joined_delivered(first + second, condense_segments) == joined_delivered(
            first,
            condense_segments,
        ) + joined_delivered(second, condense_segments),
    decreases second.len(),
{
    if second.len() == 0 {
        assert(first + second == first);
    } else {
        lemma_joined_delivered_concat(first, second.drop_last(), condense_segments);
        assert((first + second).drop_last() == first + second.drop_last());
        assert((first + second).last() == second.last());
    }
}

/// What holds between two lines, on an input that keeps its keys local:
/// what has been handed on of the open section is joined as if all its
/// segments read so far had been at hand, and the legs that are still
/// gathered have found no partner that is not gathered with them.
pub open spec fn in_step(batch_size: nat, read: Seq<Seq<char>>, condense_segments: bool) -> bool {
    let state = Pending::start().after(batch_size, read);
    let events = Pending::start().events(batch_size, read);
    let legs = section_legs(read);
    let segments = section_segments(read);
    let held = state.flights.len() as int;
    let kept = state.segments.len() as int;
    &&& held <= legs.len()
    &&& kept <= segments.len()
    &&& state.carrier == carrier_after(None, read)
    &&& match state.carrier {
        Some(c) => leg_rows(state.flights, c) == legs.skip(legs.len() - held),
        None => held == 0 && kept == 0,
    }
    &&& segment_rows(state.segments) == segments.skip(segments.len() - kept)
    &&& joined_delivered(events, condense_segments) == closed_sections(read, condense_segments)
        + joined(legs.take(legs.len() - held), segments, condense_segments)
    &&& forall|k: int|
        legs.len() - held <= k < legs.len() ==> partners_of(#[trigger] legs[k], segments)
            == partners_of(legs[k], segment_rows(state.segments))
    &&& (has_current_leg(None, read) ==> held > 0)
}

/// The joined rows of what is gathered, once it is handed on.
proof fn lemma_flush_rows(batch_size: nat, read: Seq<Seq<char>>, condense_segments: bool)
    requires
        in_step(batch_size, read, condense_segments),
    ensures
        joined_delivered(
            Pending::start().events(batch_size, read) + Pending::start().after(
                batch_size,
                read,
            ).flush(),
            condense_segments,
        ) == joined_by_section(read, condense_segments),
{
    let state = Pending::start().after(batch_size, read);
    let events = Pending::start().events(batch_size, read);
    let legs = section_legs(read);
    let segments = section_segments(read);
    let held = state.flights.len() as int;
    let early = legs.take(legs.len() - held);
    let late = legs.skip(legs.len() - held);
    let closed = closed_sections(read, condense_segments);
    lemma_joined_delivered_concat(events, state.flush(), condense_segments);
    assert((closed + joined(early, segments, condense_segments)) + joined(
        late,
        segments,
        condense_segments,
    ) == closed + (joined(early, segments, condense_segments) + joined(
        late,
        segments,
        condense_segments,
    )));
    assert(early + late == legs);
    lemma_joined_rows_concat(
        early,
        late,
        legs_on(),
        segments,
        segments_on(),
        segments_taken(),
        condense_segments,
    );
    assert(joined_delivered(Seq::<BatchEvent>::empty(), condense_segments) == Seq::<
        Seq<CellView>,
    >::empty());
    if state.count() > 0 {
        let c = state.carrier->0;
        let batch = seq![state.batch()];
        assert(batch.drop_last() == Seq::<BatchEvent>::empty());
        assert(batch.last() == state.batch());
        lemma_batch_rows(c, state.flights, state.segments, condense_segments);
        assert(joined_delivered(batch, condense_segments) == joined(
            late,
            segment_rows(state.segments),
            condense_segments,
        ));
        assert forall|k: int| 0 <= k < late.len() implies partners(
            #[trigger] late[k],
            legs_on(),
            segment_rows(state.segments),
            segments_on(),
        ) == partners(late[k], legs_on(), segments, segments_on()) by {
            assert(late[k] == legs[legs.len() - held + k]);
        }
        lemma_joined_rows_same_partners(
            late,
            legs_on(),
            segment_rows(state.segments),
            segments,
            segments_on(),
            segments_taken(),
            condense_segments,
        );
    } else {
        assert(late == Seq::<Seq<CellView>>::empty());
        assert(joined(late, segments, condense_segments) == Seq::<Seq<CellView>>::empty());
        assert(state.flush() == Seq::<BatchEvent>::empty());
    }
}

/// What a line must be like for the next step: a header comes only where no
/// carrier is active, a segment bears the key of no leg of its section but
/// the one it follows, and a leg finds no segment that was read before it
/// in its section.
pub open spec fn fits_in(read: Seq<Seq<char>>, line: Seq<char>) -> bool {
    let legs = section_legs(read);
    let segments = section_segments(read);
    match kind_of(line) {
        LineKind::Carrier => carrier_after(None, read) is None,
        LineKind::Segment => match carrier_after(None, read) {
            Some(c) => parsable(line) ==> forall|k: int|
                0 <= k < legs.len() && meets(
                    #[trigger] legs[k],
                    segment_cells(segment_of(line, c.control_duplicate_indicator)),
                ) ==> has_current_leg(None, read) && k == legs.len() - 1,
            None => true,
        },
        LineKind::FlightLeg => match carrier_after(None, read) {
            Some(c) => parsable(line) ==> partners_of(
                leg_row(flight_leg_of(line, c.control_duplicate_indicator), c),
                segments,
            ) == Seq::<Seq<CellView>>::empty(),
            None => true,
        },
        _ => true,
    }
}

/// A line that is passed over changes nothing.
proof fn lemma_step_skip(
    batch_size: nat,
    read: Seq<Seq<char>>,
    line: Seq<char>,
    condense_segments: bool,
)
    requires
        in_step(batch_size, read, condense_segments),
        kind_of(line) == LineKind::Skip,
    ensures
        in_step(batch_size, read.push(line), condense_segments),
{
    let next = read.push(line);
    assert(next.drop_last() == read);
    assert(next.last() == line);
    let events = Pending::start().events(batch_size, read);
    assert(events + Seq::<BatchEvent>::empty() == events);
}

/// A segment joins what is gathered; what has been handed on stays as it
/// is, since the segment bears the key of no leg that is gone.
proof fn lemma_step_segment(
    batch_size: nat,
    read: Seq<Seq<char>>,
    line: Seq<char>,
    condense_segments: bool,
)
    requires
        in_step(batch_size, read, condense_segments),
        kind_of(line) == LineKind::Segment,
        fits_in(read, line),
    ensures
        in_step(batch_size, read.push(line), condense_segments),
{
    let next = read.push(line);
    assert(next.drop_last() == read);
    assert(next.last() == line);
    let state = Pending::start().after(batch_size, read);
    let events = Pending::start().events(batch_size, read);
    let legs = section_legs(read);
    let segments = section_segments(read);
    let held = state.flights.len() as int;
    let kept = state.segments.len() as int;
    assert(events + Seq::<BatchEvent>::empty() == events);
    match state.carrier {
        Some(c) => {
            if parsable(line) {
                let segment = segment_of(line, c.control_duplicate_indicator);
                let cells = segment_cells(segment);
                let grown = segments.push(cells);
                assert(section_segments(next) == grown);
                assert(segment_rows(state.segments.push(segment)) == segment_rows(
                    state.segments,
                ).push(cells));
                assert(segment_rows(state.segments).push(cells) == grown.skip(
                    grown.len() - (kept + 1),
                ));
                assert(grown.drop_last() == segments);
                assert(grown.last() == cells);
                let gathered = segment_rows(state.segments).push(cells);
                assert(gathered.drop_last() == segment_rows(state.segments));
                assert(gathered.last() == cells);
                let early = legs.take(legs.len() - held);
                assert forall|k: int| 0 <= k < early.len() implies partners(
                    #[trigger] early[k],
                    legs_on(),
                    segments,
                    segments_on(),
                ) == partners(early[k], legs_on(), grown, segments_on()) by {
                    assert(early[k] == legs[k]);
                    if meets(legs[k], cells) {
                        assert(k == legs.len() - 1);
                        assert(held > 0);
                    }
                }
                lemma_joined_rows_same_partners(
                    early,
                    legs_on(),
                    segments,
                    grown,
                    segments_on(),
                    segments_taken(),
                    condense_segments,
                );
                assert forall|k: int| legs.len() - held <= k < legs.len() implies partners_of(
                    #[trigger] legs[k],
                    grown,
                ) == partners_of(legs[k], gathered) by {
                    assert(partners_of(legs[k], segments) == partners_of(
                        legs[k],
                        segment_rows(state.segments),
                    ));
                }
            }
        },
        None => {},
    }
}

/// A leg that finds no partner among all segments finds none among the
/// last of them.
proof fn lemma_no_partner_in_tail(leg: Seq<CellView>, segments: Seq<Seq<CellView>>, from: int)
    requires
        0 <= from <= segments.len(),
        partners_of(leg, segments) == Seq::<Seq<CellView>>::empty(),
    ensures
        partners_of(leg, segments.skip(from)) == Seq::<Seq<CellView>>::empty(),
{
    assert(segments.take(from) + segments.skip(from) == segments);
    lemma_partners_concat(
        leg,
        legs_on(),
        segments.take(from),
        segments.skip(from),
        segments_on(),
    );
    let head = partners_of(leg, segments.take(from));
    let tail = partners_of(leg, segments.skip(from));
    assert((head + tail).len() == 0);
    assert(tail.len() == 0);
}

/// A leg line hands on what is gathered, if that is due, and then joins
/// what is gathered, with no partner yet.
proof fn lemma_step_leg(
    batch_size: nat,
    read: Seq<Seq<char>>,
    line: Seq<char>,
    condense_segments: bool,
)
    requires
        in_step(batch_size, read, condense_segments),
        kind_of(line) == LineKind::FlightLeg,
        fits_in(read, line),
    ensures
        in_step(batch_size, read.push(line), condense_segments),
{
    let next = read.push(line);
    assert(next.drop_last() == read);
    assert(next.last() == line);
    let state = Pending::start().after(batch_size, read);
    let events = Pending::start().events(batch_size, read);
    let legs = section_legs(read);
    let segments = section_segments(read);
    let open = state.after_boundary(batch_size);
    let held = open.flights.len() as int;
    let kept = open.segments.len() as int;
    if state.is_full(batch_size) {
        lemma_flush_rows(batch_size, read, condense_segments);
        assert(state.boundary(batch_size) == state.flush());
        assert(legs.take(legs.len() as int) == legs);
        assert(legs.skip(legs.len() as int) == Seq::<Seq<CellView>>::empty());
        assert(segments.skip(segments.len() as int) == Seq::<Seq<CellView>>::empty());
        assert(segment_rows(open.segments) == Seq::<Seq<CellView>>::empty());
        match open.carrier {
            Some(c) => {
                assert(leg_rows(open.flights, c) == Seq::<Seq<CellView>>::empty());
            },
            None => {},
        }
    } else {
        assert(events + Seq::<BatchEvent>::empty() == events);
    }
    assert(closed_sections(next, condense_segments) == closed_sections(read, condense_segments));
    assert(joined_delivered(
        Pending::start().events(batch_size, next),
        condense_segments,
    ) == closed_sections(read, condense_segments) + joined(
        legs.take(legs.len() - held),
        segments,
        condense_segments,
    ));
    match open.carrier {
        Some(c) => {
            if parsable(line) {
                let flight = flight_leg_of(line, c.control_duplicate_indicator);
                let row = leg_row(flight, c);
                let grown = legs.push(row);
                assert(section_legs(next) == grown);
                assert(leg_rows(open.flights.push(flight), c) == leg_rows(open.flights, c).push(
                    row,
                ));
                assert(leg_rows(open.flights, c).push(row) == grown.skip(
                    grown.len() - (held + 1),
                ));
                assert(grown.take(grown.len() - (held + 1)) == legs.take(legs.len() - held));
                lemma_no_partner_in_tail(row, segments, segments.len() - kept);
                assert forall|k: int| grown.len() - (held + 1) <= k < grown.len() implies partners_of(
                    #[trigger] grown[k],
                    segments,
                ) == partners_of(grown[k], segment_rows(open.segments)) by {
                    if k < legs.len() {
                        assert(grown[k] == legs[k]);
                    } else {
                        assert(grown[k] == row);
                    }
                }
            }
        },
        None => {},
    }
}

/// A header comes where nothing is gathered, and changes nothing but the
/// carrier.
proof fn lemma_step_carrier(
    batch_size: nat,
    read: Seq<Seq<char>>,
    line: Seq<char>,
    condense_segments: bool,
)
    requires
        in_step(batch_size, read, condense_segments),
        kind_of(line) == LineKind::Carrier,
        fits_in(read, line),
    ensures
        in_step(batch_size, read.push(line), condense_segments),
{
    let next = read.push(line);
    assert(next.drop_last() == read);
    assert(next.last() == line);
    let state = Pending::start().after(batch_size, read);
    let events = Pending::start().events(batch_size, read);
    let legs = section_legs(read);
    let segments = section_segments(read);
    assert(events + Seq::<BatchEvent>::empty() == events);
    assert(legs.skip(legs.len() as int) == Seq::<Seq<CellView>>::empty());
    assert(segments.skip(segments.len() as int) == Seq::<Seq<CellView>>::empty());
    let after = Pending::start().after(batch_size, next);
    match after.carrier {
        Some(c) => {
            assert(leg_rows(after.flights, c) == Seq::<Seq<CellView>>::empty());
        },
        None => {},
    }
}

/// A trailer hands on what is gathered and leaves nothing behind.
proof fn lemma_step_trailer(
    batch_size: nat,
    read: Seq<Seq<char>>,
    line: Seq<char>,
    condense_segments: bool,
)
    requires
        in_step(batch_size, read, condense_segments),
        kind_of(line) == LineKind::Trailer,
    ensures
        in_step(batch_size, read.push(line), condense_segments),
{
    let next = read.push(line);
    assert(next.drop_last() == read);
    assert(next.last() == line);
    let state = Pending::start().after(batch_size, read);
    let events = Pending::start().events(batch_size, read);
    let legs = section_legs(read);
    let segments = section_segments(read);
    lemma_flush_rows(batch_size, read, condense_segments);
    let complete = BatchEvent::CarrierComplete { carrier: state.carrier };
    let late = state.flush().push(complete);
    assert(events + late == (events + state.flush()).push(complete));
    assert((events + state.flush()).push(complete).drop_last() == events + state.flush());
    assert(event_rows(complete, condense_segments) == Seq::<Seq<CellView>>::empty());
    assert(joined_delivered(events + late, condense_segments) == joined_by_section(
        read,
        condense_segments,
    ));
    let none = Seq::<Seq<CellView>>::empty();
    assert(section_legs(next) == none);
    assert(section_segments(next) == none);
    assert(closed_sections(next, condense_segments) == joined_by_section(read, condense_segments));
    assert(none.take(0) == none);
    assert(none.skip(0) == none);
    assert(joined(none, none, condense_segments) == none);
    assert(joined_by_section(read, condense_segments) + none == joined_by_section(
        read,
        condense_segments,
    ));
    assert(segment_rows(Seq::<SegmentView>::empty()) == none);
}

/// The segment that line `at` of an input gives, if it gives one.
pub open spec fn segment_at(lines: Seq<Seq<char>>, at: int) -> Option<SegmentView> {
    if kind_of(lines[at]) == LineKind::Segment && parsable(lines[at]) {
        match carrier_after(None, lines.take(at)) {
            Some(c) => Some(segment_of(lines[at], c.control_duplicate_indicator)),
            None => None,
        }
    } else {
        None
    }
}

/// Where the carrier section of line `at` ends: at the first trailer from
/// there on, or at the end of the input.
pub open spec fn section_end(lines: Seq<Seq<char>>, at: int) -> int
    decreases lines.len() - at,
{
    if at < 0 || at >= lines.len() || kind_of(lines[at]) == LineKind::Trailer {
        at
    } else {
        section_end(lines, at + 1)
    }
}

/// Whether the segments of an input bear no key but that of the leg they
/// follow, each within its carrier section: if a segment bears the key of
/// any leg of its section, it follows a leg (only segment lines and lines
/// that are passed over stand between them), and this is the leg. Of the
/// legs of other sections nothing is asked.
pub open spec fn keys_are_local(lines: Seq<Seq<char>>) -> bool {
    forall|at: int, leg: int|
        #![trigger segment_at(lines, at), section_legs(lines.take(section_end(lines, at)))[leg]]
        0 <= at < lines.len() && 0 <= leg < section_legs(
            lines.take(section_end(lines, at)),
        ).len() ==> (segment_at(lines, at) matches Some(s) ==> (meets(
            section_legs(lines.take(section_end(lines, at)))[leg],
            segment_cells(s),
        ) ==> has_current_leg(None, lines.take(at)) && leg == section_legs(lines.take(at)).len()
            - 1))
}

/// A carrier section ends at a trailer or with the input, and the leg rows
/// read up to a line of the section are the first leg rows of the section.
pub proof fn lemma_section_legs_grow(lines: Seq<Seq<char>>, upto: int)
    requires
        0 <= upto <= lines.len(),
    ensures
        upto <= section_end(lines, upto) <= lines.len(),
        section_end(lines, section_end(lines, upto)) == section_end(lines, upto),
        section_legs(lines.take(upto)).len() <= section_legs(
            lines.take(section_end(lines, upto)),
        ).len(),
        section_legs(lines.take(upto)) == section_legs(lines.take(section_end(lines, upto))).take(
            section_legs(lines.take(upto)).len() as int,
        ),
    decreases lines.len() - upto,
{
    let part = section_legs(lines.take(upto));
    if upto >= lines.len() || kind_of(lines[upto]) == LineKind::Trailer {
        assert(part.take(part.len() as int) == part);
    } else {
        lemma_section_legs_grow(lines, upto + 1);
        let next = lines.take(upto + 1);
        assert(next.drop_last() == lines.take(upto));
        assert(next.last() == lines[upto]);
        let more = section_legs(next);
        let all = section_legs(lines.take(section_end(lines, upto)));
        assert(part == more.take(part.len() as int));
        assert(part == all.take(part.len() as int));
    }
}

/// A leg finds no partner among the segments of its section that were read
/// before it.
proof fn lemma_no_earlier_partner(lines: Seq<Seq<char>>, upto: int, leg: int)
    requires
        keys_are_local(lines),
        0 <= upto <= lines.len(),
        section_legs(lines.take(upto)).len() <= leg < section_legs(
            lines.take(section_end(lines, upto)),
        ).len(),
    ensures
        partners_of(
            section_legs(lines.take(section_end(lines, upto)))[leg],
            section_segments(lines.take(upto)),
        ) == Seq::<Seq<CellView>>::empty(),
    decreases upto,
{
    let row = section_legs(lines.take(section_end(lines, upto)))[leg];
    if upto == 0 {
        assert(lines.take(0) == Seq::<Seq<char>>::empty());
        assert(section_segments(lines.take(0)) == Seq::<Seq<CellView>>::empty());
    } else {
        let read = lines.take(upto - 1);
        let next = lines.take(upto);
        let line = lines[upto - 1];
        assert(next.drop_last() == read);
        assert(next.last() == line);
        if kind_of(line) == LineKind::Trailer {
            assert(section_segments(next) == Seq::<Seq<CellView>>::empty());
        } else {
            assert(section_end(lines, upto - 1) == section_end(lines, upto));
            assert(section_legs(read).len() <= section_legs(next).len());
            lemma_no_earlier_partner(lines, upto - 1, leg);
            let before = section_segments(read);
            match carrier_after(None, read) {
                Some(c) => {
                    if kind_of(line) == LineKind::Segment && parsable(line) {
                        let segment = segment_of(line, c.control_duplicate_indicator);
                        assert(segment_at(lines, upto - 1) == Some(segment));
                        assert(section_segments(next) == before.push(segment_cells(segment)));
                        assert(before.push(segment_cells(segment)).drop_last() == before);
                        assert(before.push(segment_cells(segment)).last() == segment_cells(
                            segment,
                        ));
                        if meets(row, segment_cells(segment)) {
                            assert(leg == section_legs(read).len() - 1);
                        }
                    }
                },
                None => {},
            }
        }
    }
}

/// A segment bears the key of no leg of its section that was read before
/// it, unless it is the leg that it follows.
proof fn lemma_segment_fits(lines: Seq<Seq<char>>, at: int, leg: int)
    requires
        keys_are_local(lines),
        0 <= at < lines.len(),
        segment_at(lines, at) is Some,
        0 <= leg < section_legs(lines.take(at)).len(),
        meets(section_legs(lines.take(at))[leg], segment_cells(segment_at(lines, at)->0)),
    ensures
        has_current_leg(None, lines.take(at)),
        leg == section_legs(lines.take(at)).len() - 1,
{
    lemma_section_legs_grow(lines, at);
    let all = section_legs(lines.take(section_end(lines, at)));
    assert(section_legs(lines.take(at))[leg] == all[leg]);
    let segment = segment_at(lines, at)->0;
    assert(segment_at(lines, at) == Some(segment));
    assert(meets(all[leg], segment_cells(segment)));
}

/// A leg finds no partner among the segments of its section that were read
/// before it.
proof fn lemma_leg_fits(lines: Seq<Seq<char>>, at: int)
    requires
        keys_are_local(lines),
        0 <= at < lines.len(),
        kind_of(lines[at]) == LineKind::FlightLeg,
        parsable(lines[at]),
        carrier_after(None, lines.take(at)) is Some,
    ensures
        partners_of(
            leg_row(
                flight_leg_of(
                    lines[at],
                    carrier_after(None, lines.take(at))->0.control_duplicate_indicator,
                ),
                carrier_after(None, lines.take(at))->0,
            ),
            section_segments(lines.take(at)),
        ) == Seq::<Seq<CellView>>::empty(),
{
    let read = lines.take(at);
    let next = lines.take(at + 1);
    let c = carrier_after(None, read)->0;
    let row = leg_row(flight_leg_of(lines[at], c.control_duplicate_indicator), c);
    assert(next.drop_last() == read);
    assert(next.last() == lines[at]);
    let legs = section_legs(read);
    assert(section_legs(next) == legs.push(row));
    assert(section_end(lines, at) == section_end(lines, at + 1));
    lemma_section_legs_grow(lines, at + 1);
    let all = section_legs(lines.take(section_end(lines, at)));
    assert(all[legs.len() as int] == legs.push(row)[legs.len() as int]);
    lemma_no_earlier_partner(lines, at, legs.len() as int);
}

/// On an orderly input that keeps its keys local, every line fits in where
/// it comes.
proof fn lemma_line_fits(lines: Seq<Seq<char>>, at: int)
    requires
        orderly(lines),
        keys_are_local(lines),
        0 <= at < lines.len(),
    ensures
        fits_in(lines.take(at), lines[at]),
{
    let read = lines.take(at);
    let line = lines[at];
    let legs = section_legs(read);
    match kind_of(line) {
        LineKind::Segment => {
            match carrier_after(None, read) {
                Some(c) => {
                    if parsable(line) {
                        let segment = segment_of(line, c.control_duplicate_indicator);
                        assert(segment_at(lines, at) == Some(segment));
                        assert forall|k: int|
                            0 <= k < legs.len() && meets(
                                #[trigger] legs[k],
                                segment_cells(segment),
                            ) implies has_current_leg(None, read) && k == legs.len() - 1 by {
                            lemma_segment_fits(lines, at, k);
                        }
                    }
                },
                None => {},
            }
        },
        LineKind::FlightLeg => {
            match carrier_after(None, read) {
                Some(c) => {
                    if parsable(line) {
                        lemma_leg_fits(lines, at);
                    }
                },
                None => {},
            }
        },
        _ => {},
    }
}

/// On an orderly input that keeps its keys local, the reader is in step
/// after every line.
proof fn lemma_in_step(
    batch_size: nat,
    lines: Seq<Seq<char>>,
    upto: int,
    condense_segments: bool,
)
    requires
        orderly(lines),
        keys_are_local(lines),
        0 <= upto <= lines.len(),
    ensures
        in_step(batch_size, lines.take(upto), condense_segments),
    decreases upto,
{
    if upto == 0 {
        let read = lines.take(0);
        assert(read == Seq::<Seq<char>>::empty());
        let none = Seq::<Seq<CellView>>::empty();
        assert(segment_rows(Seq::<SegmentView>::empty()) == none);
        assert(none.skip(0) == none);
        assert(none.take(0) == none);
        assert(joined(none, none, condense_segments) == none);
        assert(none + none == none);
    } else {
        let read = lines.take(upto - 1);
        let line = lines[upto - 1];
        lemma_in_step(batch_size, lines, upto - 1, condense_segments);
        lemma_line_fits(lines, upto - 1);
        assert(read.push(line) == lines.take(upto));
        match kind_of(line) {
            LineKind::Skip => lemma_step_skip(batch_size, read, line, condense_segments),
            LineKind::Segment => lemma_step_segment(batch_size, read, line, condense_segments),
            LineKind::FlightLeg => lemma_step_leg(batch_size, read, line, condense_segments),
            LineKind::Carrier => lemma_step_carrier(batch_size, read, line, condense_segments),
            LineKind::Trailer => lemma_step_trailer(batch_size, read, line, condense_segments),
        }
    }
}

/// Whether all tables of a list have rows.
spec fn all_have_rows(tables: Seq<TableView>) -> bool {
    forall|k: int| 0 <= k < tables.len() ==> (#[trigger] tables[k]).rows.len() > 0
}

/// While the input goes on, the joined tables that wait to be stacked hold,
/// row for row, the joined rows of what was handed on.
proof fn lemma_waiting_joined_rows(events: Seq<BatchEvent>, condense_segments: bool)
    requires
        goes_on(events),
    ensures
        stacked_rows(waiting_tables(events, condense_segments)) == joined_delivered(
            events,
            condense_segments,
        ),
        all_have_rows(waiting_tables(events, condense_segments)),
        waiting_tables(events, condense_segments).len() > 0 ==> joined_delivered(
            events,
            condense_segments,
        ).len() > 0,
    decreases events.len(),
{
    if events.len() > 0 {
        let head = events.drop_last();
        let last = events.last();
        assert forall|k: int| 0 <= k < head.len() implies !((#[trigger] head[k]) is Finalize) by {
            assert(head[k] == events[k]);
        }
        lemma_waiting_joined_rows(head, condense_segments);
        assert(!(events[events.len() - 1] is Finalize));
        let before = waiting_tables(head, condense_segments);
        let rows = event_rows(last, condense_segments);
        if rows.len() > 0 {
            let table = batch_table(last, condense_segments)->0;
            assert(before.push(table).drop_last() == before);
            assert(before.push(table).last() == table);
        } else {
            assert(stacked_rows(before) + rows == stacked_rows(before));
        }
    }
}

/// The joined table does not depend on the batch size.
///
/// Take an orderly input whose segments bear no key but that of the leg
/// they follow, each within its carrier section. Whatever the batch size,
/// the joined table holds, for one carrier section after the other, the
/// rows of one join of the legs of the section with its segments: every
/// leg, in the order of the lines, with the details of the carrier that was
/// active when it was read, once for each of its segments (or once, with
/// its segments gathered, or with empty cells when it has none). It has
/// the columns of a joined table, unless it has no rows at all.
pub proof fn lemma_joined_table_holds_every_leg(
    batch_size: nat,
    lines: Seq<Seq<char>>,
    condense_segments: bool,
)
    requires
        orderly(lines),
        keys_are_local(lines),
    ensures
        combined_result(run(batch_size, lines), condense_segments) matches Some(table) && ({
            &&& table.rows == joined_by_section(lines, condense_segments)
            &&& table.names == if table.rows.len() > 0 {
                joined_column_names(condense_segments)
            } else {
                Seq::empty()
            }
        }),
{
    let start = Pending::start();
    let end = start.after(batch_size, lines);
    let early = start.events(batch_size, lines);
    let before = early + end.flush();
    let all = run(batch_size, lines);
    assert(all == before.push(BatchEvent::Finalize));
    assert(all.drop_last() == before);
    assert(lines.take(lines.len() as int) == lines);
    lemma_in_step(batch_size, lines, lines.len() as int, condense_segments);
    lemma_flush_rows(batch_size, lines, condense_segments);
    lemma_reader_goes_on(start, batch_size, lines);
    assert forall|k: int| 0 <= k < before.len() implies !((#[trigger] before[k]) is Finalize) by {
        if k < early.len() {
            assert(before[k] == early[k]);
        } else {
            assert(before[k] == end.flush()[k - early.len()]);
        }
    }
    lemma_waiting_joined_rows(before, condense_segments);
    lemma_waiting_tables_agree(before, condense_segments);
    let waiting = waiting_tables(before, condense_segments);
    if waiting.len() == 0 {
        assert(stacked_rows(waiting) == Seq::<Seq<CellView>>::empty());
    } else {
        assert(waiting[0].names == joined_column_names(condense_segments));
    }
}

/// The batch size is a matter of speed, not of meaning: on an orderly input
/// whose segments bear no key but that of the leg they follow, each within
/// its carrier section, two runs with different batch sizes give the same
/// joined table. A flight that comes again in a later section, after a
/// trailer, is no hindrance.
pub proof fn lemma_joined_table_ignores_batch_size(
    one: nat,
    other: nat,
    lines: Seq<Seq<char>>,
    condense_segments: bool,
)
    requires
        orderly(lines),
        keys_are_local(lines),
    ensures
        combined_result(run(one, lines), condense_segments) is Some,
        combined_result(run(one, lines), condense_segments) == combined_result(
            run(other, lines),
            condense_segments,
        ),
{
    lemma_joined_table_holds_every_leg(one, lines, condense_segments);
    lemma_joined_table_holds_every_leg(other, lines, condense_segments);
}

/// Where a segment follows a leg, the open section has this leg as its
/// last.
pub proof fn lemma_current_leg_is_last(lines: Seq<Seq<char>>)
    ensures
        has_current_leg(None, lines) ==> section_legs(lines).len() > 0,
    decreases lines.len(),
{
    if lines.len() > 0 {
        lemma_current_leg_is_last(lines.drop_last());
    }
}

/// The rows of the segments that follow a leg of the open section: those
/// that were read since the last trailer while the leg with the given
/// number was the last leg read, with only segment lines and lines that are
/// passed over since.
pub open spec fn segments_under(lines: Seq<Seq<char>>, leg: int) -> Seq<Seq<CellView>>
    decreases lines.len(),
{
    if lines.len() == 0 {
        Seq::empty()
    } else {
        let head = lines.drop_last();
        let before = segments_under(head, leg);
        match kind_of(lines.last()) {
            LineKind::Trailer => Seq::empty(),
            LineKind::Segment => match carrier_after(None, head) {
                Some(c) => if parsable(lines.last()) && has_current_leg(None, head)
                    && section_legs(head).len() - 1 == leg {
                    before.push(
                        segment_cells(segment_of(lines.last(), c.control_duplicate_indicator)),
                    )
                } else {
                    before
                },
                None => before,
            },
            _ => before,
        }
    }
}

/// Whether every segment that follows a leg bears the key of that leg.
pub open spec fn segments_bear_their_leg(lines: Seq<Seq<char>>) -> bool {
    forall|at: int|
        0 <= at < lines.len() ==> (#[trigger] segment_at(lines, at) matches Some(s) ==> (
        has_current_leg(None, lines.take(at)) ==> meets(
            section_legs(lines.take(at)).last(),
            segment_cells(s),
        )))
}

/// Among the segments of its section read so far, a leg finds the segments
/// that follow it.
proof fn lemma_partners_so_far(lines: Seq<Seq<char>>, upto: int, leg: int)
    requires
        keys_are_local(lines),
        segments_bear_their_leg(lines),
        0 <= upto <= lines.len(),
        0 <= leg < section_legs(lines.take(section_end(lines, upto))).len(),
    ensures
        partners_of(
            section_legs(lines.take(section_end(lines, upto)))[leg],
            section_segments(lines.take(upto)),
        ) == segments_under(lines.take(upto), leg),
    decreases upto,
{
    let row = section_legs(lines.take(section_end(lines, upto)))[leg];
    let none = Seq::<Seq<CellView>>::empty();
    if upto == 0 {
        assert(lines.take(0) == Seq::<Seq<char>>::empty());
        assert(partners_of(row, none) == none);
    } else {
        let read = lines.take(upto - 1);
        let next = lines.take(upto);
        let line = lines[upto - 1];
        assert(next.drop_last() == read);
        assert(next.last() == line);
        if kind_of(line) == LineKind::Trailer {
            assert(section_segments(next) == none);
            assert(partners_of(row, none) == none);
        } else {
            assert(section_end(lines, upto - 1) == section_end(lines, upto));
            lemma_partners_so_far(lines, upto - 1, leg);
            lemma_section_legs_grow(lines, upto - 1);
            lemma_current_leg_is_last(read);
            let before = section_segments(read);
            let under = segments_under(read, leg);
            match carrier_after(None, read) {
                Some(c) => {
                    if kind_of(line) == LineKind::Segment && parsable(line) {
                        let segment = segment_of(line, c.control_duplicate_indicator);
                        let cells = segment_cells(segment);
                        assert(segment_at(lines, upto - 1) == Some(segment));
                        assert(section_segments(next) == before.push(cells));
                        assert(before.push(cells).drop_last() == before);
                        assert(before.push(cells).last() == cells);
                        let current = section_legs(read).len() - 1;
                        if has_current_leg(None, read) && current == leg {
                            assert(section_legs(read).last() == row);
                            assert(meets(row, cells));
                        }
                        if meets(row, cells) {
                            assert(has_current_leg(None, read) && current == leg);
                        }
                    }
                },
                None => {},
            }
        }
    }
}

/// Every leg finds its segments, and no others.
///
/// Take an input whose segments bear the key of the leg they follow, and of
/// no other leg of their carrier section. Then the segments that the join
/// of a section pairs with a leg are the segments that follow this leg in
/// the input, in their order. The section is the one that line `at` stands
/// in, or the one that is open at the end of the input.
pub proof fn lemma_every_leg_finds_its_segments(lines: Seq<Seq<char>>, at: int, leg: int)
    requires
        keys_are_local(lines),
        segments_bear_their_leg(lines),
        0 <= at <= lines.len(),
        0 <= leg < section_legs(lines.take(section_end(lines, at))).len(),
    ensures
        partners_of(
            section_legs(lines.take(section_end(lines, at)))[leg],
            section_segments(lines.take(section_end(lines, at))),
        ) == segments_under(lines.take(section_end(lines, at)), leg),
{
    lemma_section_legs_grow(lines, at);
    lemma_partners_so_far(lines, section_end(lines, at), leg);
}

} // verus!
