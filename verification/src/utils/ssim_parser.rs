//! The field grammar: one fixed-width line becomes one typed record.
//!
//! A line is cut at fixed columns. Most fields are taken as they stand, blanks
//! included; a few free-text fields lose the blanks that pad them. A line that
//! is shorter than the columns ask for, or that holds a character outside
//! ASCII (whose columns are then no longer byte-aligned), is unparsable and
//! gives no record.

pub use crate::records::carrier_record::{CarrierRecord, CarrierView};
pub use crate::records::flight_leg_records::{FlightLegRecord, FlightLegView};
pub use crate::records::segment_records::{SegmentRecords, SegmentView};
use crate::utils::text::{section, section_trimmed, section_trimmed_start, trim, trim_start};
use vstd::prelude::*;
use vstd::string::*;
use vstd::utf8::is_ascii_chars;

verus! {

/// Number of columns that every record line must hold.
pub const LINE_WIDTH: usize = 200;

/// Whether a line can be cut into fields: plain ASCII and at least
/// `LINE_WIDTH` columns wide.
pub open spec fn parsable(line: Seq<char>) -> bool {
    is_ascii_chars(line) && line.len() >= LINE_WIDTH
}

/// The composite flight designator: airline designator, control/duplicate
/// indicator, flight number, operational suffix, itinerary variation
/// identifier, service type and itinerary variation overflow, with one space
/// between neighbours.
pub open spec fn flight_designator_of(
    airline: Seq<char>,
    indicator: Seq<char>,
    flight_number: Seq<char>,
    suffix: Seq<char>,
    variation: Seq<char>,
    service_type: Seq<char>,
    overflow: Seq<char>,
) -> Seq<char> {
    airline + seq![' '] + indicator + seq![' '] + flight_number + seq![' '] + suffix + seq![' ']
        + variation + seq![' '] + service_type + seq![' '] + overflow
}

/// The flight designator of a leg or segment line whose overflow character
/// stands in column `overflow_at`.
pub open spec fn designator_in(line: Seq<char>, indicator: Seq<char>, overflow_at: int) -> Seq<
    char,
> {
    flight_designator_of(
        line.subrange(2, 5),
        indicator,
        line.subrange(5, 9),
        line.subrange(1, 2),
        line.subrange(9, 11),
        line.subrange(13, 14),
        line.subrange(overflow_at, overflow_at + 1),
    )
}

/// The carrier that a season header line spells out.
pub open spec fn carrier_of(line: Seq<char>) -> CarrierView {
    CarrierView {
        airline_designator: line.subrange(2, 5),
        control_duplicate_indicator: line.subrange(107, 108),
        time_mode: line.subrange(1, 2),
        season: line.subrange(10, 13),
        period_of_schedule_validity_from: line.subrange(14, 21),
        period_of_schedule_validity_to: line.subrange(21, 28),
        creation_date: line.subrange(28, 35),
        title_of_data: trim(line.subrange(35, 64)),
        release_date: line.subrange(64, 71),
        schedule_status: line.subrange(71, 72),
        general_information: trim(line.subrange(108, 169)),
        in_flight_service_information: trim_start(line.subrange(169, 188)),
        electronic_ticketing_information: line.subrange(188, 190),
        creation_time: line.subrange(190, 194),
        record_type: line[0],
        record_serial_number: line.subrange(194, 200),
    }
}

/// The flight leg that a leg line spells out under a carrier with the given
/// control/duplicate indicator.
pub open spec fn flight_leg_of(line: Seq<char>, indicator: Seq<char>) -> FlightLegView {
    FlightLegView {
        flight_designator: designator_in(line, indicator, 127),
        operational_suffix: line.subrange(1, 2),
        airline_designator: line.subrange(2, 5),
        control_duplicate_indicator: indicator,
        flight_number: line.subrange(5, 9),
        itinerary_variation_identifier: line.subrange(9, 11),
        leg_sequence_number: line.subrange(11, 13),
        service_type: line.subrange(13, 14),
        period_of_operation_from: line.subrange(14, 21),
        period_of_operation_to: line.subrange(21, 28),
        days_of_operation: line.subrange(28, 35),
        frequency_rate: line.subrange(35, 36),
        departure_station: line.subrange(36, 39),
        scheduled_time_of_passenger_departure: line.subrange(39, 43),
        scheduled_time_of_aircraft_departure: line.subrange(43, 47),
        time_variation_departure: line.subrange(47, 52),
        passenger_terminal_departure: line.subrange(52, 54),
        arrival_station: line.subrange(54, 57),
        scheduled_time_of_aircraft_arrival: line.subrange(57, 61),
        scheduled_time_of_passenger_arrival: line.subrange(61, 65),
        time_variation_arrival: line.subrange(65, 70),
        passenger_terminal_arrival: line.subrange(70, 72),
        aircraft_type: line.subrange(72, 75),
        passenger_reservations_booking_designator: trim(line.subrange(75, 95)),
        passenger_reservations_booking_modifier: line.subrange(95, 100),
        meal_service_note: line.subrange(100, 110),
        joint_operation_airline_designators: line.subrange(110, 119),
        min_connecting_time_status_departure: line.subrange(119, 120),
        min_connecting_time_status_arrival: line.subrange(120, 121),
        secure_flight_indicator: line.subrange(121, 122),
        itinerary_variation_identifier_overflow: line.subrange(127, 128),
        aircraft_owner: trim(line.subrange(128, 131)),
        cockpit_crew_employer: trim(line.subrange(131, 134)),
        cabin_crew_employer: trim(line.subrange(134, 137)),
        onward_flight: trim(line.subrange(137, 146)),
        airline_designator2: line.subrange(137, 140),
        flight_number2: line.subrange(140, 144),
        aircraft_rotation_layover: line.subrange(144, 145),
        operational_suffix2: line.subrange(145, 146),
        flight_transit_layover: line.subrange(147, 148),
        operating_airline_disclosure: line.subrange(148, 149),
        traffic_restriction_code: line.subrange(149, 160),
        traffic_restriction_code_leg_overflow_indicator: line.subrange(160, 161),
        aircraft_configuration: line.subrange(172, 192),
        date_variation: line.subrange(192, 194),
        record_type: line[0],
        record_serial_number: line.subrange(194, 200),
    }
}

/// The segment that a segment line spells out under a carrier with the given
/// control/duplicate indicator.
pub open spec fn segment_of(line: Seq<char>, indicator: Seq<char>) -> SegmentView {
    SegmentView {
        flight_designator: designator_in(line, indicator, 27),
        operational_suffix: line.subrange(1, 2),
        airline_designator: line.subrange(2, 5),
        control_duplicate_indicator: indicator,
        flight_number: line.subrange(5, 9),
        itinerary_variation_identifier: line.subrange(9, 11),
        leg_sequence_number: line.subrange(11, 13),
        service_type: line.subrange(13, 14),
        itinerary_variation_identifier_overflow: line.subrange(27, 28),
        board_point_indicator: line.subrange(28, 29),
        off_point_indicator: line.subrange(29, 30),
        data_element_identifier: line.subrange(30, 33),
        board_point: line.subrange(33, 36),
        off_point: line.subrange(36, 39),
        data: trim(line.subrange(39, 194)),
        record_type: line[0],
        record_serial_number: line.subrange(194, 200),
    }
}

/// The carriers of a slice as plain values.
pub open spec fn carrier_views(carriers: Seq<CarrierRecord>) -> Seq<CarrierView> {
    carriers.map_values(|c: CarrierRecord| c@)
}

/// Tells whether a line can be cut into fields.
fn fits(line: &str) -> (ok: bool)
    ensures
        ok == parsable(line@),
        ok ==> is_ascii(line),
{
    if !line.is_ascii() {
        return false;
    }
    proof {
        is_ascii_spec_bytes(line);
        assert(line.spec_bytes().len() == line@.len());
    }
    line.as_bytes().len() >= LINE_WIDTH
}

/// Builds the flight designator of an ASCII line that is wide enough.
fn flight_designator(line: &str, indicator: &str, overflow_at: usize) -> (out: String)
    requires
        is_ascii(line),
        line@.len() >= LINE_WIDTH,
        overflow_at < LINE_WIDTH,
    ensures
        out@ == designator_in(line@, indicator@, overflow_at as int),
{
    proof {
        reveal_strlit(" ");
        assert(" "@ == seq![' ']);
    }
    let mut out = section(line, 2, 5);
    out.append(" ");
    out.append(indicator);
    out.append(" ");
    out.append(line.substring_ascii(5, 9));
    out.append(" ");
    out.append(line.substring_ascii(1, 2));
    out.append(" ");
    out.append(line.substring_ascii(9, 11));
    out.append(" ");
    out.append(line.substring_ascii(13, 14));
    out.append(" ");
    out.append(line.substring_ascii(overflow_at, overflow_at + 1));
    out
}

/// Parses a season header line (record type 2).
///
/// Gives a record exactly for the lines that are `parsable`; every field is
/// then the column range that `carrier_of` names.
pub fn parse_carrier_record(line: &str) -> (record: Option<CarrierRecord>)
    ensures
        record is Some <==> parsable(line@),
        record matches Some(r) ==> r@ == carrier_of(line@),
{
    if !fits(line) {
        return None;
    }
    Some(
        CarrierRecord {
            airline_designator: section(line, 2, 5),
            control_duplicate_indicator: section(line, 107, 108),
            time_mode: section(line, 1, 2),
            season: section(line, 10, 13),
            period_of_schedule_validity_from: section(line, 14, 21),
            period_of_schedule_validity_to: section(line, 21, 28),
            creation_date: section(line, 28, 35),
            title_of_data: section_trimmed(line, 35, 64),
            release_date: section(line, 64, 71),
            schedule_status: section(line, 71, 72),
            general_information: section_trimmed(line, 108, 169),
            in_flight_service_information: section_trimmed_start(line, 169, 188),
            electronic_ticketing_information: section(line, 188, 190),
            creation_time: section(line, 190, 194),
            record_type: line.get_char(0),
            record_serial_number: section(line, 194, 200),
        },
    )
}

/// Cuts a flight leg out of a line that is known to fit.
fn flight_leg_with(line: &str, indicator: &str) -> (record: FlightLegRecord)
    requires
        is_ascii(line),
        line@.len() >= LINE_WIDTH,
    ensures
        record@ == flight_leg_of(line@, indicator@),
{
    FlightLegRecord {
        flight_designator: flight_designator(line, indicator, 127),
        operational_suffix: section(line, 1, 2),
        airline_designator: section(line, 2, 5),
        control_duplicate_indicator: indicator.to_owned(),
        flight_number: section(line, 5, 9),
        itinerary_variation_identifier: section(line, 9, 11),
        leg_sequence_number: section(line, 11, 13),
        service_type: section(line, 13, 14),
        period_of_operation_from: section(line, 14, 21),
        period_of_operation_to: section(line, 21, 28),
        days_of_operation: section(line, 28, 35),
        frequency_rate: section(line, 35, 36),
        departure_station: section(line, 36, 39),
        scheduled_time_of_passenger_departure: section(line, 39, 43),
        scheduled_time_of_aircraft_departure: section(line, 43, 47),
        time_variation_departure: section(line, 47, 52),
        passenger_terminal_departure: section(line, 52, 54),
        arrival_station: section(line, 54, 57),
        scheduled_time_of_aircraft_arrival: section(line, 57, 61),
        scheduled_time_of_passenger_arrival: section(line, 61, 65),
        time_variation_arrival: section(line, 65, 70),
        passenger_terminal_arrival: section(line, 70, 72),
        aircraft_type: section(line, 72, 75),
        passenger_reservations_booking_designator: section_trimmed(line, 75, 95),
        passenger_reservations_booking_modifier: section(line, 95, 100),
        meal_service_note: section(line, 100, 110),
        joint_operation_airline_designators: section(line, 110, 119),
        min_connecting_time_status_departure: section(line, 119, 120),
        min_connecting_time_status_arrival: section(line, 120, 121),
        secure_flight_indicator: section(line, 121, 122),
        itinerary_variation_identifier_overflow: section(line, 127, 128),
        aircraft_owner: section_trimmed(line, 128, 131),
        cockpit_crew_employer: section_trimmed(line, 131, 134),
        cabin_crew_employer: section_trimmed(line, 134, 137),
        onward_flight: section_trimmed(line, 137, 146),
        airline_designator2: section(line, 137, 140),
        flight_number2: section(line, 140, 144),
        aircraft_rotation_layover: section(line, 144, 145),
        operational_suffix2: section(line, 145, 146),
        flight_transit_layover: section(line, 147, 148),
        operating_airline_disclosure: section(line, 148, 149),
        traffic_restriction_code: section(line, 149, 160),
        traffic_restriction_code_leg_overflow_indicator: section(line, 160, 161),
        aircraft_configuration: section(line, 172, 192),
        date_variation: section(line, 192, 194),
        record_type: line.get_char(0),
        record_serial_number: section(line, 194, 200),
    }
}

/// Cuts a segment out of a line that is known to fit.
fn segment_with(line: &str, indicator: &str) -> (record: SegmentRecords)
    requires
        is_ascii(line),
        line@.len() >= LINE_WIDTH,
    ensures
        record@ == segment_of(line@, indicator@),
{
    SegmentRecords {
        flight_designator: flight_designator(line, indicator, 27),
        operational_suffix: section(line, 1, 2),
        airline_designator: section(line, 2, 5),
        control_duplicate_indicator: indicator.to_owned(),
        flight_number: section(line, 5, 9),
        itinerary_variation_identifier: section(line, 9, 11),
        leg_sequence_number: section(line, 11, 13),
        service_type: section(line, 13, 14),
        itinerary_variation_identifier_overflow: section(line, 27, 28),
        board_point_indicator: section(line, 28, 29),
        off_point_indicator: section(line, 29, 30),
        data_element_identifier: section(line, 30, 33),
        board_point: section(line, 33, 36),
        off_point: section(line, 36, 39),
        data: section_trimmed(line, 39, 194),
        record_type: line.get_char(0),
        record_serial_number: section(line, 194, 200),
    }
}

/// Parses a flight leg line (record type 3) under the carriers that were
/// read since the last trailer, oldest first. The one read last is the
/// active carrier.
///
/// Gives a record exactly for the lines that are `parsable`, and only while
/// a carrier is active. The control/duplicate indicator is that of the
/// active carrier, whatever airline the line names; every other field is
/// the column range that `flight_leg_of` names.
pub fn parse_flight_record_legs(line: &str, persistent_carriers: &[CarrierRecord]) -> (record:
    Option<FlightLegRecord>)
    ensures
        record is Some <==> parsable(line@) && persistent_carriers@.len() > 0,
        record matches Some(r) ==> r@ == flight_leg_of(
            line@,
            persistent_carriers@.last()@.control_duplicate_indicator,
        ),
{
    let known = persistent_carriers.len();
    if known == 0 {
        return None;
    }
    parse_flight_leg_under(line, &persistent_carriers[known - 1])
}

/// Parses a segment line (record type 4) under the carriers that were read
/// since the last trailer, oldest first. The one read last is the active
/// carrier.
///
/// Gives a record exactly for the lines that are `parsable`, and only while
/// a carrier is active. The control/duplicate indicator is that of the
/// active carrier, whatever airline the line names; every other field is
/// the column range that `segment_of` names.
pub fn parse_segment_record(line: &str, persistent_carriers: &[CarrierRecord]) -> (record: Option<
    SegmentRecords,
>)
    ensures
        record is Some <==> parsable(line@) && persistent_carriers@.len() > 0,
        record matches Some(r) ==> r@ == segment_of(
            line@,
            persistent_carriers@.last()@.control_duplicate_indicator,
        ),
{
    let known = persistent_carriers.len();
    if known == 0 {
        return None;
    }
    parse_segment_under(line, &persistent_carriers[known - 1])
}

/// The record family that the first character of a line selects.
#[derive(Debug, Clone, Copy, PartialEq, Eq, Structural)]
pub enum LineKind {
    /// `2`: the season header that opens a carrier section.
    Carrier,
    /// `3`: a flight leg.
    FlightLeg,
    /// `4`: a segment detail line.
    Segment,
    /// `5`: the trailer that closes a carrier section.
    Trailer,
    /// Anything else, the file header `1` and the filler `0` included: the
    /// line is passed over.
    Skip,
}

/// The kind of a line, read off its first character.
pub open spec fn kind_of(line: Seq<char>) -> LineKind {
    if line.len() == 0 {
        LineKind::Skip
    } else if line[0] == '2' {
        LineKind::Carrier
    } else if line[0] == '3' {
        LineKind::FlightLeg
    } else if line[0] == '4' {
        LineKind::Segment
    } else if line[0] == '5' {
        LineKind::Trailer
    } else {
        LineKind::Skip
    }
}

/// Tells the kind of a line.
pub fn classify(line: &str) -> (kind: LineKind)
    ensures
        kind == kind_of(line@),
{
    if line.is_empty() {
        return LineKind::Skip;
    }
    let first = line.get_char(0);
    if first == '2' {
        LineKind::Carrier
    } else if first == '3' {
        LineKind::FlightLeg
    } else if first == '4' {
        LineKind::Segment
    } else if first == '5' {
        LineKind::Trailer
    } else {
        LineKind::Skip
    }
}

/// One typed record.
#[derive(Debug, Clone)]
pub enum Record {
    /// A season header.
    Carrier(CarrierRecord),
    /// A flight leg.
    FlightLeg(FlightLegRecord),
    /// A segment detail line.
    Segment(SegmentRecords),
}

/// A typed record as plain text values.
pub enum RecordView {
    Carrier(CarrierView),
    FlightLeg(FlightLegView),
    Segment(SegmentView),
}

impl View for Record {
    type V = RecordView;

    open spec fn view(&self) -> RecordView {
        match self {
            Record::Carrier(c) => RecordView::Carrier(c@),
            Record::FlightLeg(f) => RecordView::FlightLeg(f@),
            Record::Segment(s) => RecordView::Segment(s@),
        }
    }
}

/// The carrier that is active, if any, as plain values.
pub open spec fn active_view(carrier: Option<&CarrierRecord>) -> Option<CarrierView> {
    match carrier {
        Some(c) => Some(c@),
        None => None,
    }
}

/// What the grammar makes of a line while `active` is the active carrier.
///
/// A header needs no carrier. A leg or a segment is only produced while a
/// carrier is active, and takes its control/duplicate indicator from it.
/// Trailers and passed-over lines give nothing, and neither does a line that
/// is not `parsable`.
pub open spec fn record_of(line: Seq<char>, active: Option<CarrierView>) -> Option<RecordView> {
    if !parsable(line) {
        None
    } else {
        match kind_of(line) {
            LineKind::Carrier => Some(RecordView::Carrier(carrier_of(line))),
            LineKind::FlightLeg => match active {
                Some(c) => Some(
                    RecordView::FlightLeg(flight_leg_of(line, c.control_duplicate_indicator)),
                ),
                None => None,
            },
            LineKind::Segment => match active {
                Some(c) => Some(
                    RecordView::Segment(segment_of(line, c.control_duplicate_indicator)),
                ),
                None => None,
            },
            _ => None,
        }
    }
}

/// The leg that a line gives under the active carrier `carrier`, if it is
/// parsable.
pub fn parse_flight_leg_under(line: &str, carrier: &CarrierRecord) -> (record: Option<
    FlightLegRecord,
>)
    ensures
        record is Some <==> parsable(line@),
        record matches Some(r) ==> r@ == flight_leg_of(
            line@,
            carrier@.control_duplicate_indicator,
        ),
{
    if !fits(line) {
        return None;
    }
    Some(flight_leg_with(line, carrier.control_duplicate_indicator.as_str()))
}

/// The segment that a line gives under the active carrier `carrier`, if it
/// is parsable.
pub fn parse_segment_under(line: &str, carrier: &CarrierRecord) -> (record: Option<SegmentRecords>)
    ensures
        record is Some <==> parsable(line@),
        record matches Some(r) ==> r@ == segment_of(line@, carrier@.control_duplicate_indicator),
{
    if !fits(line) {
        return None;
    }
    Some(segment_with(line, carrier.control_duplicate_indicator.as_str()))
}

/// The field grammar: turns one line into one typed record, given the carrier
/// that is active when the line is read.
pub fn parse_line(line: &str, active_carrier: Option<&CarrierRecord>) -> (record: Option<Record>)
    ensures
        match record {
            Some(r) => record_of(line@, active_view(active_carrier)) == Some(r@),
            None => record_of(line@, active_view(active_carrier)) is None,
        },
{
    match classify(line) {
        LineKind::Carrier => match parse_carrier_record(line) {
            Some(c) => Some(Record::Carrier(c)),
            None => None,
        },
        LineKind::FlightLeg => match active_carrier {
            Some(carrier) => match parse_flight_leg_under(line, carrier) {
                Some(f) => Some(Record::FlightLeg(f)),
                None => None,
            },
            None => None,
        },
        LineKind::Segment => match active_carrier {
            Some(carrier) => match parse_segment_under(line, carrier) {
                Some(s) => Some(Record::Segment(s)),
                None => None,
            },
            None => None,
        },
        _ => None,
    }
}

} // verus!
