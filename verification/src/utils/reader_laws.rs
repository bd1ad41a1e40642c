//! What holds of the batch reader on every input.
//!
//! The batch size decides where the stream of records is cut, and nothing
//! else: which records come out, in which order and with which carrier's
//! indicator does not depend on it. The cuts never part a flight leg from
//! the segments that follow it.

use crate::records::carrier_record::CarrierView;
use crate::records::flight_leg_records::FlightLegView;
use crate::records::segment_records::SegmentView;
use crate::utils::ssim_parser::{carrier_of, flight_leg_of, kind_of, parsable, segment_of, LineKind};
use crate::utils::ssim_reader::{run, BatchEvent, Pending};
use vstd::prelude::*;

verus! {

/// The carrier that is active after a run of lines: the latest header that
/// could be parsed, unless a trailer came after it.
pub open spec fn carrier_after(start: Option<CarrierView>, lines: Seq<Seq<char>>) -> Option<
    CarrierView,
>
    decreases lines.len(),
{
    if lines.len() == 0 {
        start
    } else {
        let before = carrier_after(start, lines.drop_last());
        match kind_of(lines.last()) {
            LineKind::Carrier => if parsable(lines.last()) {
                Some(carrier_of(lines.last()))
            } else {
                before
            },
            LineKind::Trailer => None,
            _ => before,
        }
    }
}

/// The flight legs of an input, in the order of their lines: one for every
/// parsable leg line that is read while a carrier is active, with that
/// carrier's control/duplicate indicator.
pub open spec fn flights_in(start: Option<CarrierView>, lines: Seq<Seq<char>>) -> Seq<
    FlightLegView,
>
    decreases lines.len(),
{
    if lines.len() == 0 {
        Seq::empty()
    } else {
        let before = flights_in(start, lines.drop_last());
        match carrier_after(start, lines.drop_last()) {
            Some(c) => if kind_of(lines.last()) == LineKind::FlightLeg && parsable(lines.last()) {
                before.push(flight_leg_of(lines.last(), c.control_duplicate_indicator))
            } else {
                before
            },
            None => before,
        }
    }
}

/// The segments of an input, in the order of their lines: one for every
/// parsable segment line that is read while a carrier is active, with that
/// carrier's control/duplicate indicator.
pub open spec fn segments_in(start: Option<CarrierView>, lines: Seq<Seq<char>>) -> Seq<SegmentView>
    decreases lines.len(),
{
    if lines.len() == 0 {
        Seq::empty()
    } else {
        let before = segments_in(start, lines.drop_last());
        match carrier_after(start, lines.drop_last()) {
            Some(c) => if kind_of(lines.last()) == LineKind::Segment && parsable(lines.last()) {
                before.push(segment_of(lines.last(), c.control_duplicate_indicator))
            } else {
                before
            },
            None => before,
        }
    }
}

/// The flight legs that one event hands on.
pub open spec fn event_flights(event: BatchEvent) -> Seq<FlightLegView> {
    match event {
        BatchEvent::Batch { flights, .. } => flights,
        _ => Seq::empty(),
    }
}

/// The segments that one event hands on.
pub open spec fn event_segments(event: BatchEvent) -> Seq<SegmentView> {
    match event {
        BatchEvent::Batch { segments, .. } => segments,
        _ => Seq::empty(),
    }
}

/// All flight legs that a run of events hands on, batch after batch.
pub open spec fn delivered_flights(events: Seq<BatchEvent>) -> Seq<FlightLegView>
    decreases events.len(),
{
    if events.len() == 0 {
        Seq::empty()
    } else {
        delivered_flights(events.drop_last()) + event_flights(events.last())
    }
}

/// All segments that a run of events hands on, batch after batch.
pub open spec fn delivered_segments(events: Seq<BatchEvent>) -> Seq<SegmentView>
    decreases events.len(),
{
    if events.len() == 0 {
        Seq::empty()
    } else {
        delivered_segments(events.drop_last()) + event_segments(events.last())
    }
}

/// What two runs of events hand on is what the first hands on, followed by
/// what the second hands on.
pub proof fn lemma_delivered_concat(first: Seq<BatchEvent>, second: Seq<BatchEvent>)
    ensures
        delivered_flights(first + second) == delivered_flights(first) + delivered_flights(second),
        delivered_segments(first + second) == delivered_segments(first) + delivered_segments(
            second,
        ),
    decreases second.len(),
{
    if second.len() == 0 {
        assert(first + second == first);
    } else {
        lemma_delivered_concat(first, second.drop_last());
        assert((first + second).drop_last() == first + second.drop_last());
        assert((first + second).last() == second.last());
    }
}

/// What a single event hands on.
proof fn lemma_delivered_one(event: BatchEvent)
    ensures
        delivered_flights(seq![event]) == event_flights(event),
        delivered_segments(seq![event]) == event_segments(event),
{
    let one = seq![event];
    assert(one.drop_last() == Seq::<BatchEvent>::empty());
    assert(one.last() == event);
    assert(delivered_flights(one.drop_last()) == Seq::<FlightLegView>::empty());
    assert(delivered_segments(one.drop_last()) == Seq::<SegmentView>::empty());
}

/// What the events of a single step hand on.
proof fn lemma_delivered_step(state: Pending, batch_size: nat, line: Seq<char>)
    ensures
        delivered_flights(state.step_events(batch_size, line)) + state.step(
            batch_size,
            line,
        ).flights == state.flights + flights_in(state.carrier, seq![line]),
        delivered_segments(state.step_events(batch_size, line)) + state.step(
            batch_size,
            line,
        ).segments == state.segments + segments_in(state.carrier, seq![line]),
        state.step(batch_size, line).carrier == carrier_after(state.carrier, seq![line]),
{
    let one = seq![line];
    assert(one.drop_last() == Seq::<Seq<char>>::empty());
    assert(one.last() == line);
    assert(carrier_after(state.carrier, one.drop_last()) == state.carrier);
    assert(flights_in(state.carrier, one.drop_last()) == Seq::<FlightLegView>::empty());
    assert(segments_in(state.carrier, one.drop_last()) == Seq::<SegmentView>::empty());
    let events = state.step_events(batch_size, line);
    let none = Seq::<BatchEvent>::empty();
    let batch = seq![state.batch()];
    lemma_delivered_one(state.batch());
    assert(delivered_flights(none) == Seq::<FlightLegView>::empty());
    assert(delivered_segments(none) == Seq::<SegmentView>::empty());
    match kind_of(line) {
        LineKind::Trailer => {
            let complete = BatchEvent::CarrierComplete { carrier: state.carrier };
            assert(events.drop_last() == state.flush());
            assert(events.last() == complete);
            if state.count() > 0 {
                assert(state.flush() == batch);
            } else {
                assert(state.flights == Seq::<FlightLegView>::empty());
                assert(state.segments == Seq::<SegmentView>::empty());
            }
            assert(delivered_flights(events) == state.flights);
            assert(delivered_segments(events) == state.segments);
        },
        LineKind::FlightLeg => {
            if state.is_full(batch_size) {
                assert(events == batch);
            } else {
                assert(events == none);
            }
        },
        LineKind::Carrier => {
            if state.is_full(batch_size) {
                assert(events == batch);
            } else {
                assert(events == none);
            }
        },
        LineKind::Segment => {
            assert(events == none);
        },
        LineKind::Skip => {
            assert(events == none);
        },
    }
}

/// The flights and segments of an input read in two parts.
proof fn lemma_in_concat(start: Option<CarrierView>, head: Seq<Seq<char>>, line: Seq<char>)
    ensures
        carrier_after(start, head.push(line)) == carrier_after(
            carrier_after(start, head),
            seq![line],
        ),
        flights_in(start, head.push(line)) == flights_in(start, head) + flights_in(
            carrier_after(start, head),
            seq![line],
        ),
        segments_in(start, head.push(line)) == segments_in(start, head) + segments_in(
            carrier_after(start, head),
            seq![line],
        ),
{
    let all = head.push(line);
    let one = seq![line];
    let mid = carrier_after(start, head);
    assert(all.drop_last() == head);
    assert(all.last() == line);
    assert(one.drop_last() == Seq::<Seq<char>>::empty());
    assert(one.last() == line);
    assert(carrier_after(mid, one.drop_last()) == mid);
    assert(flights_in(mid, one.drop_last()) == Seq::<FlightLegView>::empty());
    assert(segments_in(mid, one.drop_last()) == Seq::<SegmentView>::empty());
}

/// Nothing is lost and nothing is made up: what has been handed on,
/// followed by what is still gathered, is what the lines read so far hold.
pub proof fn lemma_reader_keeps_every_record(
    start: Pending,
    batch_size: nat,
    lines: Seq<Seq<char>>,
)
    ensures
        start.after(batch_size, lines).carrier == carrier_after(start.carrier, lines),
        delivered_flights(start.events(batch_size, lines)) + start.after(batch_size, lines).flights
            == start.flights + flights_in(start.carrier, lines),
        delivered_segments(start.events(batch_size, lines)) + start.after(
            batch_size,
            lines,
        ).segments == start.segments + segments_in(start.carrier, lines),
    decreases lines.len(),
{
    if lines.len() == 0 {
    } else {
        let head = lines.drop_last();
        let line = lines.last();
        let state = start.after(batch_size, head);
        lemma_reader_keeps_every_record(start, batch_size, head);
        lemma_delivered_step(state, batch_size, line);
        lemma_delivered_concat(
            start.events(batch_size, head),
            state.step_events(batch_size, line),
        );
        assert(head.push(line) == lines);
        lemma_in_concat(start.carrier, head, line);
        let end = state.step(batch_size, line);
        let handed = delivered_flights(start.events(batch_size, head));
        let stepped = delivered_flights(state.step_events(batch_size, line));
        let fresh = flights_in(state.carrier, seq![line]);
        assert(handed + stepped + end.flights == handed + (stepped + end.flights));
        assert(handed + (state.flights + fresh) == handed + state.flights + fresh);
        assert(start.flights + flights_in(start.carrier, head) + fresh == start.flights + (
            flights_in(start.carrier, head) + fresh));
        let handed_s = delivered_segments(start.events(batch_size, head));
        let stepped_s = delivered_segments(state.step_events(batch_size, line));
        let fresh_s = segments_in(state.carrier, seq![line]);
        assert(handed_s + stepped_s + end.segments == handed_s + (stepped_s + end.segments));
        assert(handed_s + (state.segments + fresh_s) == handed_s + state.segments + fresh_s);
        assert(start.segments + segments_in(start.carrier, head) + fresh_s == start.segments + (
            segments_in(start.carrier, head) + fresh_s));
    }
}

/// Every record of the input is handed on exactly once, in the order of
/// the lines, whatever the batch size.
pub proof fn lemma_every_record_is_delivered_once(batch_size: nat, lines: Seq<Seq<char>>)
    ensures
        delivered_flights(run(batch_size, lines)) == flights_in(None, lines),
        delivered_segments(run(batch_size, lines)) == segments_in(None, lines),
{
    let start = Pending::start();
    let end = start.after(batch_size, lines);
    lemma_reader_keeps_every_record(start, batch_size, lines);
    lemma_delivered_concat(start.events(batch_size, lines), end.finish_events());
    let last = end.finish_events();
    assert(last.drop_last() == end.flush());
    assert(last.last() == BatchEvent::Finalize);
    let batch = seq![end.batch()];
    lemma_delivered_one(end.batch());
    assert(delivered_flights(Seq::<BatchEvent>::empty()) == Seq::<FlightLegView>::empty());
    assert(delivered_segments(Seq::<BatchEvent>::empty()) == Seq::<SegmentView>::empty());
    if end.count() > 0 {
        assert(end.flush() == batch);
    } else {
        assert(end.flights == Seq::<FlightLegView>::empty());
        assert(end.segments == Seq::<SegmentView>::empty());
    }
    assert(delivered_flights(last) == end.flights);
    assert(delivered_segments(last) == end.segments);
    assert(start.flights + flights_in(None, lines) == flights_in(None, lines));
    assert(start.segments + segments_in(None, lines) == segments_in(None, lines));
}

/// The batch size is a matter of speed, not of meaning: two runs over the
/// same input with different batch sizes hand on the same flight legs and
/// the same segments, in the same order.
pub proof fn lemma_batch_size_is_immaterial(one: nat, other: nat, lines: Seq<Seq<char>>)
    ensures
        delivered_flights(run(one, lines)) == delivered_flights(run(other, lines)),
        delivered_segments(run(one, lines)) == delivered_segments(run(other, lines)),
{
    lemma_every_record_is_delivered_once(one, lines);
    lemma_every_record_is_delivered_once(other, lines);
}

/// Whether every line of a run is a segment line or a line that is passed
/// over.
pub open spec fn only_segments(lines: Seq<Seq<char>>) -> bool {
    forall|j: int|
        0 <= j < lines.len() ==> kind_of(#[trigger] lines[j]) == LineKind::Segment || kind_of(
            lines[j],
        ) == LineKind::Skip
}

/// A flight leg is never parted from its segments.
///
/// Take the reader in any state, let it read a leg line and then any run of
/// segment lines (lines that are passed over may stand between them). While
/// that run is read nothing is handed on; the leg stays gathered, and every
/// segment of the run is gathered behind it. Whatever is gathered is handed
/// on in one batch, so the leg and these segments leave together.
pub proof fn lemma_segments_stay_with_their_leg(
    state: Pending,
    batch_size: nat,
    leg: Seq<char>,
    tail: Seq<Seq<char>>,
)
    requires
        kind_of(leg) == LineKind::FlightLeg,
        only_segments(tail),
    ensures
        state.carrier matches Some(c) ==> (parsable(leg) ==> state.step(
            batch_size,
            leg,
        ).flights.len() > 0 && state.step(batch_size, leg).flights.last() == flight_leg_of(
            leg,
            c.control_duplicate_indicator,
        )),
        state.step(batch_size, leg).events(batch_size, tail) == Seq::<BatchEvent>::empty(),
        state.step(batch_size, leg).after(batch_size, tail).carrier == state.carrier,
        state.step(batch_size, leg).after(batch_size, tail).flights == state.step(
            batch_size,
            leg,
        ).flights,
        state.step(batch_size, leg).after(batch_size, tail).segments == state.step(
            batch_size,
            leg,
        ).segments + segments_in(state.carrier, tail),
    decreases tail.len(),
{
    let held = state.step(batch_size, leg);
    if tail.len() == 0 {
        assert(held.segments + segments_in(state.carrier, tail) == held.segments);
    } else {
        let head = tail.drop_last();
        let line = tail.last();
        assert forall|j: int| 0 <= j < head.len() implies kind_of(#[trigger] head[j])
            == LineKind::Segment || kind_of(head[j]) == LineKind::Skip by {
            assert(head[j] == tail[j]);
        }
        lemma_segments_stay_with_their_leg(state, batch_size, leg, head);
        lemma_carrier_rests(state.carrier, head);
        let mid = held.after(batch_size, head);
        assert(kind_of(line) == LineKind::Segment || kind_of(line) == LineKind::Skip);
        assert(held.events(batch_size, head) + mid.step_events(batch_size, line) == Seq::<
            BatchEvent,
        >::empty());
        assert(held.segments + segments_in(state.carrier, head).push(
            segment_of(line, mid.carrier->0.control_duplicate_indicator),
        ) == (held.segments + segments_in(state.carrier, head)).push(
            segment_of(line, mid.carrier->0.control_duplicate_indicator),
        ));
    }
}

/// Segment lines and lines that are passed over leave the active carrier as
/// it is.
proof fn lemma_carrier_rests(start: Option<CarrierView>, lines: Seq<Seq<char>>)
    requires
        only_segments(lines),
    ensures
        carrier_after(start, lines) == start,
    decreases lines.len(),
{
    if lines.len() > 0 {
        let head = lines.drop_last();
        assert forall|j: int| 0 <= j < head.len() implies kind_of(#[trigger] head[j])
            == LineKind::Segment || kind_of(head[j]) == LineKind::Skip by {
            assert(head[j] == lines[j]);
        }
        lemma_carrier_rests(start, head);
        assert(kind_of(lines[lines.len() - 1]) == LineKind::Segment || kind_of(
            lines[lines.len() - 1],
        ) == LineKind::Skip);
    }
}

/// Whether every header of an input comes where no carrier is active: at
/// the start, or after a trailer.
pub open spec fn orderly(lines: Seq<Seq<char>>) -> bool {
    forall|at: int|
        0 <= at < lines.len() && kind_of(#[trigger] lines[at]) == LineKind::Carrier
            ==> carrier_after(None, lines.take(at)) is None
}

/// Whether line `at` of an input, if it is a leg or a segment that is read
/// under a carrier, names the airline of that carrier.
pub open spec fn names_its_carrier(lines: Seq<Seq<char>>, at: int) -> bool {
    match kind_of(lines[at]) {
        LineKind::FlightLeg | LineKind::Segment => match carrier_after(None, lines.take(at)) {
            Some(c) => lines[at].subrange(2, 5) == c.airline_designator,
            None => true,
        },
        _ => true,
    }
}

/// An input made of proper carrier sections: every header follows a trailer
/// (or opens the file), and the legs and segments of a section name the
/// airline of its header.
pub open spec fn well_sectioned(lines: Seq<Seq<char>>) -> bool {
    &&& orderly(lines)
    &&& forall|at: int| 0 <= at < lines.len() ==> #[trigger] names_its_carrier(lines, at)
}

/// Whether all these records bear the airline designator and the
/// control/duplicate indicator of `carrier`.
pub open spec fn all_of_carrier(
    carrier: CarrierView,
    flights: Seq<FlightLegView>,
    segments: Seq<SegmentView>,
) -> bool {
    &&& forall|i: int|
        0 <= i < flights.len() ==> (#[trigger] flights[i]).airline_designator
            == carrier.airline_designator && flights[i].control_duplicate_indicator
            == carrier.control_duplicate_indicator
    &&& forall|i: int|
        0 <= i < segments.len() ==> (#[trigger] segments[i]).airline_designator
            == carrier.airline_designator && segments[i].control_duplicate_indicator
            == carrier.control_duplicate_indicator
}

/// Whether an event, if it is a batch, holds records and comes with a
/// carrier.
pub open spec fn batch_has_carrier(event: BatchEvent) -> bool {
    match event {
        BatchEvent::Batch { carrier, flights, segments } => carrier is Some && flights.len()
            + segments.len() > 0,
        _ => true,
    }
}

/// Whether an event, if it is a batch, comes with a carrier whose airline
/// designator and control/duplicate indicator all its records bear.
pub open spec fn batch_is_of_its_carrier(event: BatchEvent) -> bool {
    match event {
        BatchEvent::Batch { carrier, flights, segments } => match carrier {
            Some(c) => all_of_carrier(c, flights, segments),
            None => false,
        },
        _ => true,
    }
}

/// Whether a reader state gathers records only under a carrier.
spec fn gathers_under_carrier(state: Pending) -> bool {
    state.carrier is None ==> state.count() == 0
}

/// Whether what a reader state has gathered is all of its active carrier.
spec fn gathers_its_carrier(state: Pending) -> bool {
    match state.carrier {
        Some(c) => all_of_carrier(c, state.flights, state.segments),
        None => state.count() == 0,
    }
}

proof fn lemma_sections_unconditional(batch_size: nat, lines: Seq<Seq<char>>)
    ensures
        gathers_under_carrier(Pending::start().after(batch_size, lines)),
        forall|k: int|
            0 <= k < Pending::start().events(batch_size, lines).len() ==> batch_has_carrier(
                #[trigger] Pending::start().events(batch_size, lines)[k],
            ),
    decreases lines.len(),
{
    if lines.len() > 0 {
        let head = lines.drop_last();
        lemma_sections_unconditional(batch_size, head);
        let state = Pending::start().after(batch_size, head);
        let early = Pending::start().events(batch_size, head);
        let late = state.step_events(batch_size, lines.last());
        assert forall|k: int| 0 <= k < (early + late).len() implies batch_has_carrier(
            #[trigger] (early + late)[k],
        ) by {
            if k < early.len() {
                assert((early + late)[k] == early[k]);
            } else {
                assert((early + late)[k] == late[k - early.len()]);
            }
        }
    }
}

/// Records are only handed on under a carrier: every batch holds at least
/// one record and comes with the carrier that is active. Legs and segments
/// that stand outside any carrier section never reach a batch.
pub proof fn lemma_batches_have_a_carrier(batch_size: nat, lines: Seq<Seq<char>>)
    ensures
        forall|k: int|
            0 <= k < run(batch_size, lines).len() ==> batch_has_carrier(
                #[trigger] run(batch_size, lines)[k],
            ),
{
    lemma_sections_unconditional(batch_size, lines);
    let early = Pending::start().events(batch_size, lines);
    let end = Pending::start().after(batch_size, lines);
    let late = end.finish_events();
    assert forall|k: int| 0 <= k < (early + late).len() implies batch_has_carrier(
        #[trigger] (early + late)[k],
    ) by {
        if k < early.len() {
            assert((early + late)[k] == early[k]);
        } else {
            assert((early + late)[k] == late[k - early.len()]);
        }
    }
}

proof fn lemma_sections_in_place(batch_size: nat, lines: Seq<Seq<char>>)
    requires
        well_sectioned(lines),
    ensures
        gathers_its_carrier(Pending::start().after(batch_size, lines)),
        forall|k: int|
            0 <= k < Pending::start().events(batch_size, lines).len()
                ==> batch_is_of_its_carrier(
                #[trigger] Pending::start().events(batch_size, lines)[k],
            ),
    decreases lines.len(),
{
    if lines.len() > 0 {
        let head = lines.drop_last();
        let line = lines.last();
        assert forall|at: int| 0 <= at < head.len() implies #[trigger] names_its_carrier(
            head,
            at,
        ) by {
            assert(names_its_carrier(lines, at));
            assert(head.take(at) == lines.take(at));
            assert(head[at] == lines[at]);
        }
        assert forall|at: int|
            0 <= at < head.len() && kind_of(#[trigger] head[at])
                == LineKind::Carrier implies carrier_after(None, head.take(at)) is None by {
            assert(head[at] == lines[at]);
            assert(head.take(at) == lines.take(at));
        }
        lemma_sections_in_place(batch_size, head);
        lemma_reader_keeps_every_record(Pending::start(), batch_size, head);
        let state = Pending::start().after(batch_size, head);
        let early = Pending::start().events(batch_size, head);
        let late = state.step_events(batch_size, line);
        assert(names_its_carrier(lines, lines.len() - 1));
        assert(lines[lines.len() - 1] == line);
        assert(lines.take(lines.len() - 1) == head);
        assert(state.carrier == carrier_after(None, head));
        assert forall|k: int| 0 <= k < (early + late).len() implies batch_is_of_its_carrier(
            #[trigger] (early + late)[k],
        ) by {
            if k < early.len() {
                assert((early + late)[k] == early[k]);
            } else {
                assert((early + late)[k] == late[k - early.len()]);
            }
        }
    }
}

/// Every record bears its carrier.
///
/// On an input made of proper carrier sections, every batch comes with a
/// carrier, and each flight leg and segment in it bears that carrier's
/// airline designator and control/duplicate indicator.
pub proof fn lemma_batches_are_of_their_carrier(batch_size: nat, lines: Seq<Seq<char>>)
    requires
        well_sectioned(lines),
    ensures
        forall|k: int|
            0 <= k < run(batch_size, lines).len() ==> batch_is_of_its_carrier(
                #[trigger] run(batch_size, lines)[k],
            ),
{
    lemma_sections_in_place(batch_size, lines);
    let early = Pending::start().events(batch_size, lines);
    let end = Pending::start().after(batch_size, lines);
    let late = end.finish_events();
    assert forall|k: int| 0 <= k < (early + late).len() implies batch_is_of_its_carrier(
        #[trigger] (early + late)[k],
    ) by {
        if k < early.len() {
            assert((early + late)[k] == early[k]);
        } else {
            assert((early + late)[k] == late[k - early.len()]);
        }
    }
}

/// Every flight leg that is handed on was read inside a carrier section and
/// bears that carrier's indicator.
///
/// Whatever the batch size, each flight leg that is handed on is what some
/// leg line of the input spells out, read while a carrier was active, with
/// the control/duplicate indicator of that carrier. A leg line that stands
/// outside every carrier section gives nothing.
pub proof fn lemma_every_leg_has_its_line(batch_size: nat, lines: Seq<Seq<char>>, leg: int)
    requires
        0 <= leg < delivered_flights(run(batch_size, lines)).len(),
    ensures
        exists|at: int|
            0 <= at < lines.len() && kind_of(#[trigger] lines[at]) == LineKind::FlightLeg
                && parsable(lines[at]) && carrier_after(None, lines.take(at)) is Some
                && delivered_flights(run(batch_size, lines))[leg] == flight_leg_of(
                lines[at],
                carrier_after(None, lines.take(at))->0.control_duplicate_indicator,
            ),
{
    lemma_every_record_is_delivered_once(batch_size, lines);
    lemma_leg_line(lines, leg);
}

/// Every segment that is handed on was read inside a carrier section and
/// bears that carrier's indicator.
///
/// Whatever the batch size, each segment that is handed on is what some
/// segment line of the input spells out, read while a carrier was active,
/// with the control/duplicate indicator of that carrier. A segment line
/// that stands outside every carrier section gives nothing.
pub proof fn lemma_every_segment_has_its_line(
    batch_size: nat,
    lines: Seq<Seq<char>>,
    segment: int,
)
    requires
        0 <= segment < delivered_segments(run(batch_size, lines)).len(),
    ensures
        exists|at: int|
            0 <= at < lines.len() && kind_of(#[trigger] lines[at]) == LineKind::Segment
                && parsable(lines[at]) && carrier_after(None, lines.take(at)) is Some
                && delivered_segments(run(batch_size, lines))[segment] == segment_of(
                lines[at],
                carrier_after(None, lines.take(at))->0.control_duplicate_indicator,
            ),
{
    lemma_every_record_is_delivered_once(batch_size, lines);
    lemma_segment_line(lines, segment);
}

/// The line that a flight leg of an input comes from.
proof fn lemma_leg_line(lines: Seq<Seq<char>>, leg: int)
    requires
        0 <= leg < flights_in(None, lines).len(),
    ensures
        exists|at: int|
            0 <= at < lines.len() && kind_of(#[trigger] lines[at]) == LineKind::FlightLeg
                && parsable(lines[at]) && carrier_after(None, lines.take(at)) is Some
                && flights_in(None, lines)[leg] == flight_leg_of(
                lines[at],
                carrier_after(None, lines.take(at))->0.control_duplicate_indicator,
            ),
    decreases lines.len(),
{
    let head = lines.drop_last();
    let before = flights_in(None, head);
    if leg < before.len() {
        lemma_leg_line(head, leg);
        let at = choose|at: int|
            0 <= at < head.len() && kind_of(#[trigger] head[at]) == LineKind::FlightLeg
                && parsable(head[at]) && carrier_after(None, head.take(at)) is Some && before[leg]
                == flight_leg_of(
                head[at],
                carrier_after(None, head.take(at))->0.control_duplicate_indicator,
            );
        assert(head[at] == lines[at]);
        assert(head.take(at) == lines.take(at));
        assert(flights_in(None, lines)[leg] == before[leg]);
    } else {
        let at = lines.len() - 1;
        assert(lines[at] == lines.last());
        assert(lines.take(at) == head);
    }
}

/// The line that a segment of an input comes from.
proof fn lemma_segment_line(lines: Seq<Seq<char>>, segment: int)
    requires
        0 <= segment < segments_in(None, lines).len(),
    ensures
        exists|at: int|
            0 <= at < lines.len() && kind_of(#[trigger] lines[at]) == LineKind::Segment
                && parsable(lines[at]) && carrier_after(None, lines.take(at)) is Some
                && segments_in(None, lines)[segment] == segment_of(
                lines[at],
                carrier_after(None, lines.take(at))->0.control_duplicate_indicator,
            ),
    decreases lines.len(),
{
    let head = lines.drop_last();
    let before = segments_in(None, head);
    if segment < before.len() {
        lemma_segment_line(head, segment);
        let at = choose|at: int|
            0 <= at < head.len() && kind_of(#[trigger] head[at]) == LineKind::Segment && parsable(
                head[at],
            ) && carrier_after(None, head.take(at)) is Some && before[segment] == segment_of(
                head[at],
                carrier_after(None, head.take(at))->0.control_duplicate_indicator,
            );
        assert(head[at] == lines[at]);
        assert(head.take(at) == lines.take(at));
        assert(segments_in(None, lines)[segment] == before[segment]);
    } else {
        let at = lines.len() - 1;
        assert(lines[at] == lines.last());
        assert(lines.take(at) == head);
    }
}

} // verus!
