//! What holds of the tables that come out, whatever the batch size.

use crate::generators::ssim_dataframe::{flight_cells, flight_table, segment_cells, segment_table};
use crate::records::flight_leg_records::FlightLegView;
use crate::records::segment_records::SegmentView;
use crate::table::{stacked_rows, CellView};
use crate::utils::reader_laws::{
    delivered_flights, delivered_segments, event_flights, event_segments, flights_in,
    lemma_every_record_is_delivered_once, segments_in,
};
use crate::utils::ssim_processors::{lemma_waiting_split_agrees, split_result, waiting_split};
use crate::utils::ssim_reader::{run, BatchEvent, Pending};
use vstd::prelude::*;

verus! {

/// Whether no event of a run announces the end of input.
pub open spec fn goes_on(events: Seq<BatchEvent>) -> bool {
    forall|k: int| 0 <= k < events.len() ==> !((#[trigger] events[k]) is Finalize)
}

/// The reader announces the end of input only when it is told so: nothing
/// that it hands on while it reads lines is that announcement.
pub proof fn lemma_reader_goes_on(start: Pending, batch_size: nat, lines: Seq<Seq<char>>)
    ensures
        goes_on(start.events(batch_size, lines)),
        goes_on(start.after(batch_size, lines).flush()),
    decreases lines.len(),
{
    if lines.len() > 0 {
        let head = lines.drop_last();
        lemma_reader_goes_on(start, batch_size, head);
        let early = start.events(batch_size, head);
        let late = start.after(batch_size, head).step_events(batch_size, lines.last());
        assert forall|k: int| 0 <= k < (early + late).len() implies !((#[trigger] (early
            + late)[k]) is Finalize) by {
            if k < early.len() {
                assert((early + late)[k] == early[k]);
            } else {
                assert((early + late)[k] == late[k - early.len()]);
            }
        }
    }
}

/// While the input goes on, the flight and segment tables that wait to be
/// stacked hold, row for row, the records that were handed on.
pub proof fn lemma_waiting_rows(events: Seq<BatchEvent>)
    requires
        goes_on(events),
    ensures
        stacked_rows(waiting_split(events).1) == delivered_flights(events).map_values(
            |f: FlightLegView| flight_cells(f),
        ),
        stacked_rows(waiting_split(events).2) == delivered_segments(events).map_values(
            |s: SegmentView| segment_cells(s),
        ),
    decreases events.len(),
{
    if events.len() > 0 {
        let head = events.drop_last();
        let last = events.last();
        assert forall|k: int| 0 <= k < head.len() implies !((#[trigger] head[k]) is Finalize) by {
            assert(head[k] == events[k]);
        }
        lemma_waiting_rows(head);
        assert(!(events[events.len() - 1] is Finalize));
        let before = waiting_split(head);
        let flights = event_flights(last);
        let segments = event_segments(last);
        let flight_rows = flights.map_values(|f: FlightLegView| flight_cells(f));
        let segment_rows = segments.map_values(|s: SegmentView| segment_cells(s));
        assert((delivered_flights(head) + flights).map_values(|f: FlightLegView| flight_cells(f))
            == delivered_flights(head).map_values(|f: FlightLegView| flight_cells(f))
            + flight_rows);
        assert((delivered_segments(head) + segments).map_values(
            |s: SegmentView| segment_cells(s),
        ) == delivered_segments(head).map_values(|s: SegmentView| segment_cells(s))
            + segment_rows);
        match last {
            BatchEvent::Batch { .. } => {
                let table = flight_table(flights);
                assert(table.rows == flight_rows);
                if table.rows.len() > 0 {
                    assert(before.1.push(table).drop_last() == before.1);
                } else {
                    assert(stacked_rows(before.1) + flight_rows == stacked_rows(before.1));
                }
                let other = segment_table(segments);
                assert(other.rows == segment_rows);
                if other.rows.len() > 0 {
                    assert(before.2.push(other).drop_last() == before.2);
                } else {
                    assert(stacked_rows(before.2) + segment_rows == stacked_rows(before.2));
                }
            },
            _ => {
                assert(stacked_rows(before.1) + flight_rows == stacked_rows(before.1));
                assert(stacked_rows(before.2) + segment_rows == stacked_rows(before.2));
            },
        }
    }
}

/// The flight table and the segment table do not depend on the batch size.
///
/// Whatever the batch size, the flight table holds one row for every flight
/// leg of the input and the segment table one row for every segment, in the
/// order of the lines.
pub proof fn lemma_split_tables_hold_every_record(batch_size: nat, lines: Seq<Seq<char>>)
    ensures
        split_result(run(batch_size, lines)) matches Some(tables) && tables.1.rows == flights_in(
            None,
            lines,
        ).map_values(|f: FlightLegView| flight_cells(f)) && tables.2.rows == segments_in(
            None,
            lines,
        ).map_values(|s: SegmentView| segment_cells(s)),
{
    let start = Pending::start();
    let end = start.after(batch_size, lines);
    let early = start.events(batch_size, lines);
    let before = early + end.flush();
    let all = run(batch_size, lines);
    assert(all == before.push(BatchEvent::Finalize));
    assert(all.drop_last() == before);
    lemma_reader_goes_on(start, batch_size, lines);
    assert forall|k: int| 0 <= k < before.len() implies !((#[trigger] before[k]) is Finalize) by {
        if k < early.len() {
            assert(before[k] == early[k]);
        } else {
            assert(before[k] == end.flush()[k - early.len()]);
        }
    }
    lemma_waiting_rows(before);
    lemma_waiting_split_agrees(before);
    lemma_every_record_is_delivered_once(batch_size, lines);
    assert(delivered_flights(all) == delivered_flights(before) + event_flights(
        BatchEvent::Finalize,
    ));
    assert(delivered_segments(all) == delivered_segments(before) + event_segments(
        BatchEvent::Finalize,
    ));
    assert(delivered_flights(before) + Seq::<FlightLegView>::empty() == delivered_flights(before));
    assert(delivered_segments(before) + Seq::<SegmentView>::empty() == delivered_segments(
        before,
    ));
    let waiting = waiting_split(before);
    if waiting.1.len() == 0 {
        assert(stacked_rows(waiting.1) == Seq::<Seq<CellView>>::empty());
    }
    if waiting.2.len() == 0 {
        assert(stacked_rows(waiting.2) == Seq::<Seq<CellView>>::empty());
    }
}

/// The batch size is a matter of speed, not of meaning: two runs over the
/// same input with different batch sizes give the same flight rows and the
/// same segment rows.
pub proof fn lemma_split_tables_ignore_batch_size(one: nat, other: nat, lines: Seq<Seq<char>>)
    ensures
        split_result(run(one, lines)) matches Some(first) && split_result(
            run(other, lines),
        ) matches Some(second) && first.1.rows == second.1.rows && first.2.rows == second.2.rows,
{
    lemma_split_tables_hold_every_record(one, lines);
    lemma_split_tables_hold_every_record(other, lines);
}

} // verus!
