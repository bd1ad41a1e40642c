//! Reading a whole schedule text at once into its three lists of records.

use crate::records::carrier_record::{CarrierRecord, CarrierView};
use crate::records::flight_leg_records::FlightLegRecord;
use crate::records::segment_records::SegmentRecords;
use crate::utils::reader_laws::{carrier_after, flights_in, segments_in};
use crate::utils::ssim_parser::{
    carrier_of, carrier_views, classify, kind_of, parsable, parse_carrier_record,
    parse_flight_leg_under, parse_segment_under, LineKind,
};
use crate::utils::ssim_reader::{flight_views, line_views, segment_views};
use crate::utils::text::{lines_of, split_lines};
use vstd::prelude::*;

verus! {

/// The carriers of an input, in the order of their lines: one for every
/// header line that can be parsed.
pub open spec fn carriers_in(lines: Seq<Seq<char>>) -> Seq<CarrierView>
    decreases lines.len(),
{
    if lines.len() == 0 {
        Seq::empty()
    } else {
        let before = carriers_in(lines.drop_last());
        if kind_of(lines.last()) == LineKind::Carrier && parsable(lines.last()) {
            before.push(carrier_of(lines.last()))
        } else {
            before
        }
    }
}

/// Reads a whole schedule text and gives its carriers, its flight legs and
/// its segments, each list in the order of the lines.
///
/// A header makes its carrier the active one until the next trailer. Legs
/// and segments are only taken while a carrier is active, and bear its
/// control/duplicate indicator. Lines that cannot be parsed are left out.
/// The text is always read to its end.
pub fn ssim_iterator(ssim: String) -> (records: Result<
    (Vec<CarrierRecord>, Vec<FlightLegRecord>, Vec<SegmentRecords>),
    String,
>)
    ensures
        records matches Ok(found) && carrier_views(found.0@) == carriers_in(lines_of(ssim@))
            && flight_views(found.1@) == flights_in(None, lines_of(ssim@)) && segment_views(
            found.2@,
        ) == segments_in(None, lines_of(ssim@)),
{
    let lines = split_lines(ssim.as_str());
    let ghost text = line_views(lines@);
    let mut carriers: Vec<CarrierRecord> = Vec::new();
    let mut flights: Vec<FlightLegRecord> = Vec::new();
    let mut segments: Vec<SegmentRecords> = Vec::new();
    let mut active: Option<CarrierRecord> = None;
    let mut at: usize = 0;
    proof {
        assert(text.take(0) == Seq::<Seq<char>>::empty());
        assert(carrier_views(carriers@) == carriers_in(text.take(0)));
        assert(flight_views(flights@) == flights_in(None, text.take(0)));
        assert(segment_views(segments@) == segments_in(None, text.take(0)));
    }
    while at < lines.len()
        invariant
            at <= lines.len(),
            text == line_views(lines@),
            text == lines_of(ssim@),
            match active {
                Some(c) => carrier_after(None, text.take(at as int)) == Some(c@),
                None => carrier_after(None, text.take(at as int)) is None,
            },
            carrier_views(carriers@) == carriers_in(text.take(at as int)),
            flight_views(flights@) == flights_in(None, text.take(at as int)),
            segment_views(segments@) == segments_in(None, text.take(at as int)),
        decreases lines.len() - at,
    {
        let line = lines[at].as_str();
        proof {
            assert(text.take(at as int + 1).drop_last() == text.take(at as int));
            assert(text.take(at as int + 1).last() == line@);
        }
        match classify(line) {
            LineKind::Carrier => {
                match parse_carrier_record(line) {
                    Some(carrier) => {
                        let copy = carrier.duplicate();
                        assert(carrier_views(carriers@.push(carrier)) == carrier_views(
                            carriers@,
                        ).push(carrier@));
                        carriers.push(carrier);
                        active = Some(copy);
                    },
                    None => {},
                }
            },
            LineKind::FlightLeg => {
                match &active {
                    Some(carrier) => {
                        match parse_flight_leg_under(line, carrier) {
                            Some(flight) => {
                                assert(flight_views(flights@.push(flight)) == flight_views(
                                    flights@,
                                ).push(flight@));
                                flights.push(flight);
                            },
                            None => {},
                        }
                    },
                    None => {},
                }
            },
            LineKind::Segment => {
                match &active {
                    Some(carrier) => {
                        match parse_segment_under(line, carrier) {
                            Some(segment) => {
                                assert(segment_views(segments@.push(segment)) == segment_views(
                                    segments@,
                                ).push(segment@));
                                segments.push(segment);
                            },
                            None => {},
                        }
                    },
                    None => {},
                }
            },
            LineKind::Trailer => {
                active = None;
            },
            LineKind::Skip => {},
        }
        at = at + 1;
    }
    proof {
        assert(text.take(at as int) == text);
    }
    Ok((carriers, flights, segments))
}

} // verus!
