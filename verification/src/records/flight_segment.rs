//! A flight leg together with the segments that belong to it.

use crate::records::flight_leg_records::{FlightLegRecord, FlightLegView};
use crate::records::segment_records::{SegmentRecords, SegmentView};
use vstd::prelude::*;

verus! {

/// A flight leg with its segment detail lines gathered under it.
#[derive(Debug, Clone)]
pub struct FlightSegment {
    /// The leg.
    pub flight_leg: FlightLegRecord,
    /// Its segments, in the order in which they were read.
    pub segments: Vec<SegmentRecords>,
}

/// A leg and its segments as plain text values.
pub struct FlightSegmentView {
    pub flight_leg: FlightLegView,
    pub segments: Seq<SegmentView>,
}

impl View for FlightSegment {
    type V = FlightSegmentView;

    open spec fn view(&self) -> FlightSegmentView {
        FlightSegmentView {
            flight_leg: self.flight_leg@,
            segments: self.segments@.map_values(|s: SegmentRecords| s@),
        }
    }
}

} // verus!
