//! Detail lines attached to a flight leg.

use vstd::prelude::*;

verus! {

/// One segment detail line (record type 4). It has no life of its own: it
/// belongs to the leg with the same flight designator and leg sequence number.
#[derive(Debug, Clone)]
pub struct SegmentRecords {
    /// Composite key, built as for the leg the segment belongs to.
    pub flight_designator: String,
    /// Operational suffix.
    pub operational_suffix: String,
    /// Airline designator.
    pub airline_designator: String,
    /// Taken over from the carrier, never read from the segment's own line.
    pub control_duplicate_indicator: String,
    /// Flight number.
    pub flight_number: String,
    /// Itinerary variation identifier.
    pub itinerary_variation_identifier: String,
    /// Leg sequence number.
    pub leg_sequence_number: String,
    /// Service type.
    pub service_type: String,
    /// Overflow character of the itinerary variation identifier.
    pub itinerary_variation_identifier_overflow: String,
    /// Board point indicator.
    pub board_point_indicator: String,
    /// Off point indicator.
    pub off_point_indicator: String,
    /// Identifier of the data element the payload holds.
    pub data_element_identifier: String,
    /// Board point station.
    pub board_point: String,
    /// Off point station.
    pub off_point: String,
    /// Free-text payload, outer blanks removed.
    pub data: String,
    /// First character of the line.
    pub record_type: char,
    /// Serial number of the line within the file.
    pub record_serial_number: String,
}

/// A segment record as plain text values.
pub struct SegmentView {
    pub flight_designator: Seq<char>,
    pub operational_suffix: Seq<char>,
    pub airline_designator: Seq<char>,
    pub control_duplicate_indicator: Seq<char>,
    pub flight_number: Seq<char>,
    pub itinerary_variation_identifier: Seq<char>,
    pub leg_sequence_number: Seq<char>,
    pub service_type: Seq<char>,
    pub itinerary_variation_identifier_overflow: Seq<char>,
    pub board_point_indicator: Seq<char>,
    pub off_point_indicator: Seq<char>,
    pub data_element_identifier: Seq<char>,
    pub board_point: Seq<char>,
    pub off_point: Seq<char>,
    pub data: Seq<char>,
    pub record_type: char,
    pub record_serial_number: Seq<char>,
}

impl View for SegmentRecords {
    type V = SegmentView;

    open spec fn view(&self) -> SegmentView {
        SegmentView {
            flight_designator: self.flight_designator@,
            operational_suffix: self.operational_suffix@,
            airline_designator: self.airline_designator@,
            control_duplicate_indicator: self.control_duplicate_indicator@,
            flight_number: self.flight_number@,
            itinerary_variation_identifier: self.itinerary_variation_identifier@,
            leg_sequence_number: self.leg_sequence_number@,
            service_type: self.service_type@,
            itinerary_variation_identifier_overflow: self.itinerary_variation_identifier_overflow@,
            board_point_indicator: self.board_point_indicator@,
            off_point_indicator: self.off_point_indicator@,
            data_element_identifier: self.data_element_identifier@,
            board_point: self.board_point@,
            off_point: self.off_point@,
            data: self.data@,
            record_type: self.record_type,
            record_serial_number: self.record_serial_number@,
        }
    }
}

impl SegmentRecords {
    /// A copy that holds the same text in every field.
    pub fn duplicate(&self) -> (copy: SegmentRecords)
        ensures
            copy@ == self@,
    {
        SegmentRecords {
            flight_designator: self.flight_designator.clone(),
            operational_suffix: self.operational_suffix.clone(),
            airline_designator: self.airline_designator.clone(),
            control_duplicate_indicator: self.control_duplicate_indicator.clone(),
            flight_number: self.flight_number.clone(),
            itinerary_variation_identifier: self.itinerary_variation_identifier.clone(),
            leg_sequence_number: self.leg_sequence_number.clone(),
            service_type: self.service_type.clone(),
            itinerary_variation_identifier_overflow: self.itinerary_variation_identifier_overflow.clone(),
            board_point_indicator: self.board_point_indicator.clone(),
            off_point_indicator: self.off_point_indicator.clone(),
            data_element_identifier: self.data_element_identifier.clone(),
            board_point: self.board_point.clone(),
            off_point: self.off_point.clone(),
            data: self.data.clone(),
            record_type: self.record_type,
            record_serial_number: self.record_serial_number.clone(),
        }
    }
}

} // verus!
