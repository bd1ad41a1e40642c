//! What holds of the carrier table, whatever the batch size.
//!
//! The carrier table has one row for every carrier under which a record
//! was read. On an input whose headers come in their turn, each at the
//! start or after a trailer, the batch size has no say in it.

use crate::converters::ssim_tables::carrier_key_columns;
use crate::generators::ssim_dataframe::carrier_cells;
use crate::records::carrier_record::CarrierView;
use crate::table::{first_of_each, holds_key, lemma_first_of_each, CellView};
use crate::utils::reader_laws::{carrier_after, orderly};
use crate::utils::ssim_parser::{kind_of, parsable, LineKind};
use crate::utils::ssim_processors::{batch_carriers, lemma_one_row_per_carrier, split_result};
use crate::utils::ssim_reader::{run, BatchEvent, Pending};
use vstd::prelude::*;

verus! {

/// The carriers under which the records of an input are read: one for
/// every leg and every segment that is read, in the order of the lines.
pub open spec fn carriers_read_under(lines: Seq<Seq<char>>) -> Seq<CarrierView>
    decreases lines.len(),
{
    if lines.len() == 0 {
        Seq::empty()
    } else {
        let before = carriers_read_under(lines.drop_last());
        match carrier_after(None, lines.drop_last()) {
            Some(c) => if (kind_of(lines.last()) == LineKind::FlightLeg || kind_of(lines.last())
                == LineKind::Segment) && parsable(lines.last()) {
                before.push(c)
            } else {
                before
            },
            None => before,
        }
    }
}

/// The rows of a list of carriers, one for each airline designator and
/// control/duplicate indicator: of the carriers that bear the same pair the
/// first gives the row.
pub open spec fn one_row_each(carriers: Seq<CarrierView>) -> Seq<Seq<CellView>> {
    first_of_each(carriers.map_values(|c: CarrierView| carrier_cells(c)), carrier_key_columns())
}

/// The carrier of what a reader has gathered, if it has gathered anything.
spec fn gathered_under(state: Pending) -> Seq<CarrierView> {
    match state.carrier {
        Some(c) => if state.count() > 0 {
            seq![c]
        } else {
            Seq::empty()
        },
        None => Seq::empty(),
    }
}

/// What holds between two lines: the carriers of the batches handed on and
/// of what is gathered give the rows of the carriers read under.
spec fn in_turn(batch_size: nat, read: Seq<Seq<char>>) -> bool {
    let state = Pending::start().after(batch_size, read);
    let events = Pending::start().events(batch_size, read);
    &&& state.carrier == carrier_after(None, read)
    &&& (state.carrier is None ==> state.count() == 0)
    &&& one_row_each(batch_carriers(events) + gathered_under(state)) == one_row_each(
        carriers_read_under(read),
    )
}

/// Two lists that give the same rows still do when one carrier more is
/// added to both.
proof fn lemma_one_more(one: Seq<CarrierView>, other: Seq<CarrierView>, carrier: CarrierView)
    requires
        one_row_each(one) == one_row_each(other),
    ensures
        one_row_each(one.push(carrier)) == one_row_each(other.push(carrier)),
{
    let cells = carrier_cells(carrier);
    let first = one.map_values(|c: CarrierView| carrier_cells(c));
    let second = other.map_values(|c: CarrierView| carrier_cells(c));
    assert(one.push(carrier).map_values(|c: CarrierView| carrier_cells(c)) == first.push(cells));
    assert(other.push(carrier).map_values(|c: CarrierView| carrier_cells(c)) == second.push(cells));
    assert(first.push(cells).drop_last() == first);
    assert(second.push(cells).drop_last() == second);
}

/// A carrier that comes again gives no new row.
proof fn lemma_once_more(carriers: Seq<CarrierView>, carrier: CarrierView)
    requires
        carriers.len() > 0,
        carriers.last() == carrier,
    ensures
        one_row_each(carriers.push(carrier)) == one_row_each(carriers),
{
    let on = carrier_key_columns();
    let cells = carrier_cells(carrier);
    let rows = carriers.map_values(|c: CarrierView| carrier_cells(c));
    assert(carriers.push(carrier).map_values(|c: CarrierView| carrier_cells(c)) == rows.push(
        cells,
    ));
    assert(rows.push(cells).drop_last() == rows);
    lemma_first_of_each(rows, on);
    assert(rows[rows.len() - 1] == cells);
    assert(holds_key(first_of_each(rows, on), cells, on));
}

/// Handing on what is gathered changes nothing in the carriers.
proof fn lemma_handed_on(events: Seq<BatchEvent>, state: Pending)
    requires
        state.carrier is None ==> state.count() == 0,
    ensures
        batch_carriers(events + state.flush()) + gathered_under(state.emptied())
            == batch_carriers(events) + gathered_under(state),
{
    let none = Seq::<CarrierView>::empty();
    assert(gathered_under(state.emptied()) == none);
    if state.count() > 0 {
        let c = state.carrier->0;
        assert(events + state.flush() == events.push(state.batch()));
        assert(events.push(state.batch()).drop_last() == events);
        assert(batch_carriers(events).push(c) + none == batch_carriers(events) + seq![c]);
    } else {
        assert(events + state.flush() == events);
    }
}

/// One more record under the active carrier keeps the reader in turn.
proof fn lemma_record_taken(
    handed: Seq<CarrierView>,
    before: Pending,
    after: Pending,
    read: Seq<CarrierView>,
)
    requires
        before.carrier is Some,
        after.carrier == before.carrier,
        after.count() > 0,
        one_row_each(handed + gathered_under(before)) == one_row_each(read),
    ensures
        one_row_each(handed + gathered_under(after)) == one_row_each(
            read.push(before.carrier->0),
        ),
{
    let c = before.carrier->0;
    let had = handed + gathered_under(before);
    lemma_one_more(had, read, c);
    if before.count() > 0 {
        assert(had == handed + seq![c]);
        assert(had.last() == c);
        lemma_once_more(had, c);
        assert(handed + gathered_under(after) == had);
    } else {
        assert(had == handed);
        assert(handed + gathered_under(after) == had.push(c));
    }
}

/// A line keeps the reader in turn, if it is no header out of turn.
proof fn lemma_turn(batch_size: nat, read: Seq<Seq<char>>, line: Seq<char>)
    requires
        in_turn(batch_size, read),
        kind_of(line) == LineKind::Carrier ==> carrier_after(None, read) is None,
    ensures
        in_turn(batch_size, read.push(line)),
{
    let next = read.push(line);
    assert(next.drop_last() == read);
    assert(next.last() == line);
    let state = Pending::start().after(batch_size, read);
    let events = Pending::start().events(batch_size, read);
    let after = Pending::start().after(batch_size, next);
    let handed = batch_carriers(events);
    let none = Seq::<BatchEvent>::empty();
    match kind_of(line) {
        LineKind::Skip => {
            assert(events + none == events);
        },
        LineKind::Segment => {
            assert(events + none == events);
            if state.carrier is Some && parsable(line) {
                lemma_record_taken(handed, state, after, carriers_read_under(read));
            }
        },
        LineKind::FlightLeg => {
            let open = state.after_boundary(batch_size);
            if state.is_full(batch_size) {
                lemma_handed_on(events, state);
            } else {
                assert(events + none == events);
            }
            if open.carrier is Some && parsable(line) {
                lemma_record_taken(
                    batch_carriers(Pending::start().events(batch_size, next)),
                    open,
                    after,
                    carriers_read_under(read),
                );
            }
        },
        LineKind::Carrier => {
            assert(events + none == events);
        },
        LineKind::Trailer => {
            lemma_handed_on(events, state);
            let complete = BatchEvent::CarrierComplete { carrier: state.carrier };
            let late = state.flush().push(complete);
            assert(events + late == (events + state.flush()).push(complete));
            assert((events + state.flush()).push(complete).drop_last() == events + state.flush());
        },
    }
}

/// On an orderly input the reader is in turn after every line.
proof fn lemma_in_turn(batch_size: nat, lines: Seq<Seq<char>>, upto: int)
    requires
        orderly(lines),
        0 <= upto <= lines.len(),
    ensures
        in_turn(batch_size, lines.take(upto)),
    decreases upto,
{
    if upto == 0 {
        assert(lines.take(0) == Seq::<Seq<char>>::empty());
        assert(Seq::<CarrierView>::empty() + Seq::<CarrierView>::empty() == Seq::<
            CarrierView,
        >::empty());
    } else {
        lemma_in_turn(batch_size, lines, upto - 1);
        assert(lines.take(upto - 1).push(lines[upto - 1]) == lines.take(upto));
        lemma_turn(batch_size, lines.take(upto - 1), lines[upto - 1]);
    }
}

/// The carrier table holds every carrier once.
///
/// Take an orderly input. Whatever the batch size, the carrier table has
/// one row for every pair of airline designator and control/duplicate
/// indicator under which a leg or a segment was read, in the order in which
/// the pairs first come, and the row is that of the first header with this
/// pair under which a record was read.
pub proof fn lemma_carrier_table_holds_every_carrier(batch_size: nat, lines: Seq<Seq<char>>)
    requires
        orderly(lines),
    ensures
        split_result(run(batch_size, lines)) matches Some(tables) && tables.0.rows == one_row_each(
            carriers_read_under(lines),
        ),
{
    let start = Pending::start();
    let end = start.after(batch_size, lines);
    let early = start.events(batch_size, lines);
    let before = early + end.flush();
    let all = run(batch_size, lines);
    assert(all == before.push(BatchEvent::Finalize));
    assert(lines.take(lines.len() as int) == lines);
    lemma_in_turn(batch_size, lines, lines.len() as int);
    lemma_handed_on(early, end);
    assert(batch_carriers(before) + Seq::<CarrierView>::empty() == batch_carriers(before));
    lemma_one_row_per_carrier(before);
}

/// The batch size is a matter of speed, not of meaning: two runs over the
/// same orderly input with different batch sizes give the same carrier
/// rows.
pub proof fn lemma_carrier_table_ignores_batch_size(one: nat, other: nat, lines: Seq<Seq<char>>)
    requires
        orderly(lines),
    ensures
        split_result(run(one, lines)) matches Some(first) && split_result(
            run(other, lines),
        ) matches Some(second) && first.0.rows == second.0.rows,
{
    lemma_carrier_table_holds_every_carrier(one, lines);
    lemma_carrier_table_holds_every_carrier(other, lines);
}

} // verus!
