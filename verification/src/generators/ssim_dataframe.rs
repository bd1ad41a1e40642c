//! From records to tables: one column per field.
//!
//! The rows of flight legs and segments are made side by side on the worker
//! threads of rayon; a row depends on nothing but its record.

use crate::records::carrier_record::{CarrierRecord, CarrierView};
use crate::records::flight_leg_records::{FlightLegRecord, FlightLegView};
use crate::records::segment_records::{SegmentRecords, SegmentView};
use crate::table::{
    cells_view, char_text, no_repeats, rows_view, texts_view, Cell, CellView, Table, TableView,
};
use crate::utils::ssim_parser::{active_view, carrier_views};
use crate::utils::ssim_reader::{flight_views, segment_views};
use rayon::iter::{IntoParallelRefIterator, ParallelIterator};
use vstd::prelude::*;

verus! {

/// The columns of a carrier table, left to right.
pub open spec fn carrier_column_names() -> Seq<Seq<char>> {
    seq![
        "airline_designator"@,
        "control_duplicate_indicator"@,
        "time_mode"@,
        "season"@,
        "period_of_schedule_validity_from"@,
        "period_of_schedule_validity_to"@,
        "creation_date"@,
        "title_of_data"@,
        "release_date"@,
        "schedule_status"@,
        "general_information"@,
        "in_flight_service_information"@,
        "electronic_ticketing_information"@,
        "creation_time"@,
        "record_type"@,
        "record_serial_number"@,
    ]
}

/// The cells that one carrier fills, one per column.
pub open spec fn carrier_cells(c: CarrierView) -> Seq<CellView> {
    seq![
        CellView::Text(c.airline_designator),
        CellView::Text(c.control_duplicate_indicator),
        CellView::Text(c.time_mode),
        CellView::Text(c.season),
        CellView::Text(c.period_of_schedule_validity_from),
        CellView::Text(c.period_of_schedule_validity_to),
        CellView::Text(c.creation_date),
        CellView::Text(c.title_of_data),
        CellView::Text(c.release_date),
        CellView::Text(c.schedule_status),
        CellView::Text(c.general_information),
        CellView::Text(c.in_flight_service_information),
        CellView::Text(c.electronic_ticketing_information),
        CellView::Text(c.creation_time),
        CellView::Text(seq![c.record_type]),
        CellView::Text(c.record_serial_number),
    ]
}

/// The table of a list of carriers.
pub open spec fn carrier_table(records: Seq<CarrierView>) -> TableView {
    TableView {
        names: carrier_column_names(),
        rows: records.map_values(|c: CarrierView| carrier_cells(c)),
    }
}

/// The column names of a carrier table.
fn carrier_names() -> (names: Vec<String>)
    ensures
        texts_view(names@) == carrier_column_names(),
{
    let names = vec![
        "airline_designator".to_owned(),
        "control_duplicate_indicator".to_owned(),
        "time_mode".to_owned(),
        "season".to_owned(),
        "period_of_schedule_validity_from".to_owned(),
        "period_of_schedule_validity_to".to_owned(),
        "creation_date".to_owned(),
        "title_of_data".to_owned(),
        "release_date".to_owned(),
        "schedule_status".to_owned(),
        "general_information".to_owned(),
        "in_flight_service_information".to_owned(),
        "electronic_ticketing_information".to_owned(),
        "creation_time".to_owned(),
        "record_type".to_owned(),
        "record_serial_number".to_owned(),
    ];
    assert(texts_view(names@) =~= carrier_column_names());
    names
}

/// The row of one carrier record.
fn carrier_row(c: &CarrierRecord) -> (row: Vec<Cell>)
    ensures
        cells_view(row@) == carrier_cells(c@),
{
    let row = vec![
        Cell::Text(c.airline_designator.clone()),
        Cell::Text(c.control_duplicate_indicator.clone()),
        Cell::Text(c.time_mode.clone()),
        Cell::Text(c.season.clone()),
        Cell::Text(c.period_of_schedule_validity_from.clone()),
        Cell::Text(c.period_of_schedule_validity_to.clone()),
        Cell::Text(c.creation_date.clone()),
        Cell::Text(c.title_of_data.clone()),
        Cell::Text(c.release_date.clone()),
        Cell::Text(c.schedule_status.clone()),
        Cell::Text(c.general_information.clone()),
        Cell::Text(c.in_flight_service_information.clone()),
        Cell::Text(c.electronic_ticketing_information.clone()),
        Cell::Text(c.creation_time.clone()),
        Cell::Text(char_text(c.record_type)),
        Cell::Text(c.record_serial_number.clone()),
    ];
    assert(cells_view(row@) =~= carrier_cells(c@));
    row
}

impl CarrierRecord {
    /// The table of these records: one column per field, one row per
    /// record, in order.
    pub fn get_columns(records: &[CarrierRecord]) -> (table: Table)
        ensures
            table@ == carrier_table(carrier_views(records@)),
    {
        let mut table = Table::new(carrier_names());
        let ghost wanted = carrier_table(carrier_views(records@));
        let mut at: usize = 0;
        assert(table@.rows == wanted.rows.take(0));
        while at < records.len()
            invariant
                at <= records.len(),
                wanted == carrier_table(carrier_views(records@)),
                table@.names == wanted.names,
                table@.rows == wanted.rows.take(at as int),
            decreases records.len() - at,
        {
            let row = carrier_row(&records[at]);
            proof {
                assert(cells_view(row@).len() == row@.len());
                assert(wanted.rows.take(at as int + 1) == wanted.rows.take(at as int).push(
                    carrier_cells(records@[at as int]@),
                ));
            }
            table.push_row(row);
            at = at + 1;
        }
        assert(wanted.rows.take(at as int) == wanted.rows);
        table
    }
}

/// The columns of a flight table, left to right.
pub open spec fn flight_column_names() -> Seq<Seq<char>> {
    seq![
        "flight_designator"@,
        "operational_suffix"@,
        "airline_designator"@,
        "control_duplicate_indicator"@,
        "flight_number"@,
        "itinerary_variation_identifier"@,
        "leg_sequence_number"@,
        "service_type"@,
        "period_of_operation_from"@,
        "period_of_operation_to"@,
        "days_of_operation"@,
        "frequency_rate"@,
        "departure_station"@,
        "scheduled_time_of_passenger_departure"@,
        "scheduled_time_of_aircraft_departure"@,
        "time_variation_departure"@,
        "passenger_terminal_departure"@,
        "arrival_station"@,
        "scheduled_time_of_aircraft_arrival"@,
        "scheduled_time_of_passenger_arrival"@,
        "time_variation_arrival"@,
        "passenger_terminal_arrival"@,
        "aircraft_type"@,
        "passenger_reservations_booking_designator"@,
        "passenger_reservations_booking_modifier"@,
        "meal_service_note"@,
        "joint_operation_airline_designators"@,
        "min_connecting_time_status_departure"@,
        "min_connecting_time_status_arrival"@,
        "secure_flight_indicator"@,
        "itinerary_variation_identifier_overflow"@,
        "aircraft_owner"@,
        "cockpit_crew_employer"@,
        "cabin_crew_employer"@,
        "onward_flight"@,
        "airline_designator2"@,
        "flight_number2"@,
        "aircraft_rotation_layover"@,
        "operational_suffix2"@,
        "flight_transit_layover"@,
        "operating_airline_disclosure"@,
        "traffic_restriction_code"@,
        "traffic_restriction_code_leg_overflow_indicator"@,
        "aircraft_configuration"@,
        "date_variation"@,
        "record_type"@,
        "record_serial_number"@,
    ]
}

/// The cells that one flight leg fills, one per column.
pub open spec fn flight_cells(f: FlightLegView) -> Seq<CellView> {
    seq![
        CellView::Text(f.flight_designator),
        CellView::Text(f.operational_suffix),
        CellView::Text(f.airline_designator),
        CellView::Text(f.control_duplicate_indicator),
        CellView::Text(f.flight_number),
        CellView::Text(f.itinerary_variation_identifier),
        CellView::Text(f.leg_sequence_number),
        CellView::Text(f.service_type),
        CellView::Text(f.period_of_operation_from),
        CellView::Text(f.period_of_operation_to),
        CellView::Text(f.days_of_operation),
        CellView::Text(f.frequency_rate),
        CellView::Text(f.departure_station),
        CellView::Text(f.scheduled_time_of_passenger_departure),
        CellView::Text(f.scheduled_time_of_aircraft_departure),
        CellView::Text(f.time_variation_departure),
        CellView::Text(f.passenger_terminal_departure),
        CellView::Text(f.arrival_station),
        CellView::Text(f.scheduled_time_of_aircraft_arrival),
        CellView::Text(f.scheduled_time_of_passenger_arrival),
        CellView::Text(f.time_variation_arrival),
        CellView::Text(f.passenger_terminal_arrival),
        CellView::Text(f.aircraft_type),
        CellView::Text(f.passenger_reservations_booking_designator),
        CellView::Text(f.passenger_reservations_booking_modifier),
        CellView::Text(f.meal_service_note),
        CellView::Text(f.joint_operation_airline_designators),
        CellView::Text(f.min_connecting_time_status_departure),
        CellView::Text(f.min_connecting_time_status_arrival),
        CellView::Text(f.secure_flight_indicator),
        CellView::Text(f.itinerary_variation_identifier_overflow),
        CellView::Text(f.aircraft_owner),
        CellView::Text(f.cockpit_crew_employer),
        CellView::Text(f.cabin_crew_employer),
        CellView::Text(f.onward_flight),
        CellView::Text(f.airline_designator2),
        CellView::Text(f.flight_number2),
        CellView::Text(f.aircraft_rotation_layover),
        CellView::Text(f.operational_suffix2),
        CellView::Text(f.flight_transit_layover),
        CellView::Text(f.operating_airline_disclosure),
        CellView::Text(f.traffic_restriction_code),
        CellView::Text(f.traffic_restriction_code_leg_overflow_indicator),
        CellView::Text(f.aircraft_configuration),
        CellView::Text(f.date_variation),
        CellView::Text(seq![f.record_type]),
        CellView::Text(f.record_serial_number),
    ]
}

/// The table of a list of flight legs.
pub open spec fn flight_table(records: Seq<FlightLegView>) -> TableView {
    TableView {
        names: flight_column_names(),
        rows: records.map_values(|f: FlightLegView| flight_cells(f)),
    }
}

/// The column names of a flight table.
fn flight_names() -> (names: Vec<String>)
    ensures
        texts_view(names@) == flight_column_names(),
{
    let names = vec![
        "flight_designator".to_owned(),
        "operational_suffix".to_owned(),
        "airline_designator".to_owned(),
        "control_duplicate_indicator".to_owned(),
        "flight_number".to_owned(),
        "itinerary_variation_identifier".to_owned(),
        "leg_sequence_number".to_owned(),
        "service_type".to_owned(),
        "period_of_operation_from".to_owned(),
        "period_of_operation_to".to_owned(),
        "days_of_operation".to_owned(),
        "frequency_rate".to_owned(),
        "departure_station".to_owned(),
        "scheduled_time_of_passenger_departure".to_owned(),
        "scheduled_time_of_aircraft_departure".to_owned(),
        "time_variation_departure".to_owned(),
        "passenger_terminal_departure".to_owned(),
        "arrival_station".to_owned(),
        "scheduled_time_of_aircraft_arrival".to_owned(),
        "scheduled_time_of_passenger_arrival".to_owned(),
        "time_variation_arrival".to_owned(),
        "passenger_terminal_arrival".to_owned(),
        "aircraft_type".to_owned(),
        "passenger_reservations_booking_designator".to_owned(),
        "passenger_reservations_booking_modifier".to_owned(),
        "meal_service_note".to_owned(),
        "joint_operation_airline_designators".to_owned(),
        "min_connecting_time_status_departure".to_owned(),
        "min_connecting_time_status_arrival".to_owned(),
        "secure_flight_indicator".to_owned(),
        "itinerary_variation_identifier_overflow".to_owned(),
        "aircraft_owner".to_owned(),
        "cockpit_crew_employer".to_owned(),
        "cabin_crew_employer".to_owned(),
        "onward_flight".to_owned(),
        "airline_designator2".to_owned(),
        "flight_number2".to_owned(),
        "aircraft_rotation_layover".to_owned(),
        "operational_suffix2".to_owned(),
        "flight_transit_layover".to_owned(),
        "operating_airline_disclosure".to_owned(),
        "traffic_restriction_code".to_owned(),
        "traffic_restriction_code_leg_overflow_indicator".to_owned(),
        "aircraft_configuration".to_owned(),
        "date_variation".to_owned(),
        "record_type".to_owned(),
        "record_serial_number".to_owned(),
    ];
    assert(texts_view(names@) =~= flight_column_names());
    names
}

/// The row of one flight record.
fn flight_row(f: &FlightLegRecord) -> (row: Vec<Cell>)
    ensures
        cells_view(row@) == flight_cells(f@),
{
    let row = vec![
        Cell::Text(f.flight_designator.clone()),
        Cell::Text(f.operational_suffix.clone()),
        Cell::Text(f.airline_designator.clone()),
        Cell::Text(f.control_duplicate_indicator.clone()),
        Cell::Text(f.flight_number.clone()),
        Cell::Text(f.itinerary_variation_identifier.clone()),
        Cell::Text(f.leg_sequence_number.clone()),
        Cell::Text(f.service_type.clone()),
        Cell::Text(f.period_of_operation_from.clone()),
        Cell::Text(f.period_of_operation_to.clone()),
        Cell::Text(f.days_of_operation.clone()),
        Cell::Text(f.frequency_rate.clone()),
        Cell::Text(f.departure_station.clone()),
        Cell::Text(f.scheduled_time_of_passenger_departure.clone()),
        Cell::Text(f.scheduled_time_of_aircraft_departure.clone()),
        Cell::Text(f.time_variation_departure.clone()),
        Cell::Text(f.passenger_terminal_departure.clone()),
        Cell::Text(f.arrival_station.clone()),
        Cell::Text(f.scheduled_time_of_aircraft_arrival.clone()),
        Cell::Text(f.scheduled_time_of_passenger_arrival.clone()),
        Cell::Text(f.time_variation_arrival.clone()),
        Cell::Text(f.passenger_terminal_arrival.clone()),
        Cell::Text(f.aircraft_type.clone()),
        Cell::Text(f.passenger_reservations_booking_designator.clone()),
        Cell::Text(f.passenger_reservations_booking_modifier.clone()),
        Cell::Text(f.meal_service_note.clone()),
        Cell::Text(f.joint_operation_airline_designators.clone()),
        Cell::Text(f.min_connecting_time_status_departure.clone()),
        Cell::Text(f.min_connecting_time_status_arrival.clone()),
        Cell::Text(f.secure_flight_indicator.clone()),
        Cell::Text(f.itinerary_variation_identifier_overflow.clone()),
        Cell::Text(f.aircraft_owner.clone()),
        Cell::Text(f.cockpit_crew_employer.clone()),
        Cell::Text(f.cabin_crew_employer.clone()),
        Cell::Text(f.onward_flight.clone()),
        Cell::Text(f.airline_designator2.clone()),
        Cell::Text(f.flight_number2.clone()),
        Cell::Text(f.aircraft_rotation_layover.clone()),
        Cell::Text(f.operational_suffix2.clone()),
        Cell::Text(f.flight_transit_layover.clone()),
        Cell::Text(f.operating_airline_disclosure.clone()),
        Cell::Text(f.traffic_restriction_code.clone()),
        Cell::Text(f.traffic_restriction_code_leg_overflow_indicator.clone()),
        Cell::Text(f.aircraft_configuration.clone()),
        Cell::Text(f.date_variation.clone()),
        Cell::Text(char_text(f.record_type)),
        Cell::Text(f.record_serial_number.clone()),
    ];
    assert(cells_view(row@) =~= flight_cells(f@));
    row
}

/// rayon's `par_iter`, `map` and `collect` over flight records. The rows are
/// made side by side on rayon's worker threads, each by `flight_row`; the
/// contract claims that rayon hands them back one per record and in the
/// order of the records.
#[verifier::external_body]
fn flight_rows(records: &[FlightLegRecord]) -> (rows: Vec<Vec<Cell>>)
    ensures
        rows_view(rows@) == flight_views(records@).map_values(|f: FlightLegView| flight_cells(f)),
{
    records.par_iter().map(|record| flight_row(record)).collect()
}

impl FlightLegRecord {
    /// The table of these records: one column per field, one row per
    /// record, in order.
    pub fn get_columns(records: &[FlightLegRecord]) -> (table: Table)
        ensures
            table@ == flight_table(flight_views(records@)),
    {
        let names = flight_names();
        let rows = flight_rows(records);
        proof {
            let wanted = flight_views(records@).map_values(|f: FlightLegView| flight_cells(f));
            assert(texts_view(names@).len() == names@.len());
            assert(rows_view(rows@).len() == rows@.len());
            assert(wanted.len() == flight_views(records@).len());
            assert forall|i: int| 0 <= i < rows@.len() implies (#[trigger] rows@[i])@.len()
                == names@.len() by {
                assert(rows_view(rows@)[i] == cells_view(rows@[i]@));
                assert(cells_view(rows@[i]@).len() == rows@[i]@.len());
                assert(wanted[i] == flight_cells(flight_views(records@)[i]));
                assert(flight_cells(flight_views(records@)[i]).len() == 47);
                assert(flight_column_names().len() == 47);
            }
        }
        Table::from_rows(names, rows)
    }
}

/// The columns of a segment table, left to right. The service type is the leg's to tell and has no column here.
pub open spec fn segment_column_names() -> Seq<Seq<char>> {
    seq![
        "flight_designator"@,
        "operational_suffix"@,
        "airline_designator"@,
        "control_duplicate_indicator"@,
        "flight_number"@,
        "itinerary_variation_identifier"@,
        "leg_sequence_number"@,
        "itinerary_variation_identifier_overflow"@,
        "board_point_indicator"@,
        "off_point_indicator"@,
        "data_element_identifier"@,
        "board_point"@,
        "off_point"@,
        "data"@,
        "record_type"@,
        "record_serial_number"@,
    ]
}

/// The cells that one segment fills, one per column.
pub open spec fn segment_cells(s: SegmentView) -> Seq<CellView> {
    seq![
        CellView::Text(s.flight_designator),
        CellView::Text(s.operational_suffix),
        CellView::Text(s.airline_designator),
        CellView::Text(s.control_duplicate_indicator),
        CellView::Text(s.flight_number),
        CellView::Text(s.itinerary_variation_identifier),
        CellView::Text(s.leg_sequence_number),
        CellView::Text(s.itinerary_variation_identifier_overflow),
        CellView::Text(s.board_point_indicator),
        CellView::Text(s.off_point_indicator),
        CellView::Text(s.data_element_identifier),
        CellView::Text(s.board_point),
        CellView::Text(s.off_point),
        CellView::Text(s.data),
        CellView::Text(seq![s.record_type]),
        CellView::Text(s.record_serial_number),
    ]
}

/// The table of a list of segments.
pub open spec fn segment_table(records: Seq<SegmentView>) -> TableView {
    TableView {
        names: segment_column_names(),
        rows: records.map_values(|s: SegmentView| segment_cells(s)),
    }
}

/// The column names of a segment table.
fn segment_names() -> (names: Vec<String>)
    ensures
        texts_view(names@) == segment_column_names(),
{
    let names = vec![
        "flight_designator".to_owned(),
        "operational_suffix".to_owned(),
        "airline_designator".to_owned(),
        "control_duplicate_indicator".to_owned(),
        "flight_number".to_owned(),
        "itinerary_variation_identifier".to_owned(),
        "leg_sequence_number".to_owned(),
        "itinerary_variation_identifier_overflow".to_owned(),
        "board_point_indicator".to_owned(),
        "off_point_indicator".to_owned(),
        "data_element_identifier".to_owned(),
        "board_point".to_owned(),
        "off_point".to_owned(),
        "data".to_owned(),
        "record_type".to_owned(),
        "record_serial_number".to_owned(),
    ];
    assert(texts_view(names@) =~= segment_column_names());
    names
}

/// The row of one segment record.
fn segment_row(s: &SegmentRecords) -> (row: Vec<Cell>)
    ensures
        cells_view(row@) == segment_cells(s@),
{
    let row = vec![
        Cell::Text(s.flight_designator.clone()),
        Cell::Text(s.operational_suffix.clone()),
        Cell::Text(s.airline_designator.clone()),
        Cell::Text(s.control_duplicate_indicator.clone()),
        Cell::Text(s.flight_number.clone()),
        Cell::Text(s.itinerary_variation_identifier.clone()),
        Cell::Text(s.leg_sequence_number.clone()),
        Cell::Text(s.itinerary_variation_identifier_overflow.clone()),
        Cell::Text(s.board_point_indicator.clone()),
        Cell::Text(s.off_point_indicator.clone()),
        Cell::Text(s.data_element_identifier.clone()),
        Cell::Text(s.board_point.clone()),
        Cell::Text(s.off_point.clone()),
        Cell::Text(s.data.clone()),
        Cell::Text(char_text(s.record_type)),
        Cell::Text(s.record_serial_number.clone()),
    ];
    assert(cells_view(row@) =~= segment_cells(s@));
    row
}

/// rayon's `par_iter`, `map` and `collect` over segment records. The rows are
/// made side by side on rayon's worker threads, each by `segment_row`; the
/// contract claims that rayon hands them back one per record and in the
/// order of the records.
#[verifier::external_body]
fn segment_rows(records: &[SegmentRecords]) -> (rows: Vec<Vec<Cell>>)
    ensures
        rows_view(rows@) == segment_views(records@).map_values(|s: SegmentView| segment_cells(s)),
{
    records.par_iter().map(|record| segment_row(record)).collect()
}

impl SegmentRecords {
    /// The table of these records: one column per field, one row per
    /// record, in order.
    pub fn get_columns(records: &[SegmentRecords]) -> (table: Table)
        ensures
            table@ == segment_table(segment_views(records@)),
    {
        let names = segment_names();
        let rows = segment_rows(records);
        proof {
            let wanted = segment_views(records@).map_values(|s: SegmentView| segment_cells(s));
            assert(texts_view(names@).len() == names@.len());
            assert(rows_view(rows@).len() == rows@.len());
            assert(wanted.len() == segment_views(records@).len());
            assert forall|i: int| 0 <= i < rows@.len() implies (#[trigger] rows@[i])@.len()
                == names@.len() by {
                assert(rows_view(rows@)[i] == cells_view(rows@[i]@));
                assert(cells_view(rows@[i]@).len() == rows@[i]@.len());
                assert(wanted[i] == segment_cells(segment_views(records@)[i]));
                assert(segment_cells(segment_views(records@)[i]).len() == 16);
                assert(segment_column_names().len() == 16);
            }
        }
        Table::from_rows(names, rows)
    }
}

/// The active carrier as a list of none or one.
pub open spec fn carrier_list(carrier: Option<CarrierView>) -> Seq<CarrierView> {
    match carrier {
        Some(c) => seq![c],
        None => Seq::empty(),
    }
}

/// Turns the records of one batch into three tables: the carrier (one row,
/// or none when no carrier is given), the flight legs and the segments.
pub fn convert_to_dataframes(
    carrier: Option<&CarrierRecord>,
    flights: Vec<FlightLegRecord>,
    segments: Vec<SegmentRecords>,
) -> (tables: (Table, Table, Table))
    ensures
        tables.0@ == carrier_table(carrier_list(active_view(carrier))),
        tables.1@ == flight_table(flight_views(flights@)),
        tables.2@ == segment_table(segment_views(segments@)),
{
    let mut carriers: Vec<CarrierRecord> = Vec::new();
    match carrier {
        Some(c) => {
            carriers.push(c.duplicate());
            assert(carrier_views(carriers@) == carrier_list(active_view(carrier)));
        },
        None => {
            assert(carrier_views(carriers@) == carrier_list(active_view(carrier)));
        },
    }
    let carrier_table = CarrierRecord::get_columns(carriers.as_slice());
    let flight_table = FlightLegRecord::get_columns(flights.as_slice());
    let segment_table = SegmentRecords::get_columns(segments.as_slice());
    (carrier_table, flight_table, segment_table)
}

/// No two columns of a carrier table bear the same name.
pub proof fn lemma_carrier_columns_differ()
    ensures
        no_repeats(carrier_column_names()),
{
    reveal_strlit("airline_designator");
    reveal_strlit("control_duplicate_indicator");
    reveal_strlit("creation_date");
    reveal_strlit("creation_time");
    reveal_strlit("electronic_ticketing_information");
    reveal_strlit("general_information");
    reveal_strlit("in_flight_service_information");
    reveal_strlit("period_of_schedule_validity_from");
    reveal_strlit("period_of_schedule_validity_to");
    reveal_strlit("record_serial_number");
    reveal_strlit("record_type");
    reveal_strlit("release_date");
    reveal_strlit("schedule_status");
    reveal_strlit("season");
    reveal_strlit("time_mode");
    reveal_strlit("title_of_data");
    let names = carrier_column_names();
    assert(names.len() == 16);
    assert(names[0].len() == 18);
    assert(names[1].len() == 27);
    assert(names[2].len() == 9);
    assert(names[3].len() == 6);
    assert(names[4].len() == 32);
    assert(names[5].len() == 30);
    assert(names[6].len() == 13);
    assert(names[7].len() == 13);
    assert(names[8].len() == 12);
    assert(names[9].len() == 15);
    assert(names[10].len() == 19);
    assert(names[11].len() == 29);
    assert(names[12].len() == 32);
    assert(names[13].len() == 13);
    assert(names[14].len() == 11);
    assert(names[15].len() == 20);
    assert(names[4][0] != names[12][0]);
    assert(names[6][0] != names[7][0]);
    assert(names[6][9] != names[13][9]);
    assert(names[7][0] != names[13][0]);
}

/// No two columns of a flight table bear the same name.
pub proof fn lemma_flight_columns_differ()
    ensures
        no_repeats(flight_column_names()),
{
    reveal_strlit("aircraft_configuration");
    reveal_strlit("aircraft_owner");
    reveal_strlit("aircraft_rotation_layover");
    reveal_strlit("aircraft_type");
    reveal_strlit("airline_designator");
    reveal_strlit("airline_designator2");
    reveal_strlit("arrival_station");
    reveal_strlit("cabin_crew_employer");
    reveal_strlit("cockpit_crew_employer");
    reveal_strlit("control_duplicate_indicator");
    reveal_strlit("date_variation");
    reveal_strlit("days_of_operation");
    reveal_strlit("departure_station");
    reveal_strlit("flight_designator");
    reveal_strlit("flight_number");
    reveal_strlit("flight_number2");
    reveal_strlit("flight_transit_layover");
    reveal_strlit("frequency_rate");
    reveal_strlit("itinerary_variation_identifier");
    reveal_strlit("itinerary_variation_identifier_overflow");
    reveal_strlit("joint_operation_airline_designators");
    reveal_strlit("leg_sequence_number");
    reveal_strlit("meal_service_note");
    reveal_strlit("min_connecting_time_status_arrival");
    reveal_strlit("min_connecting_time_status_departure");
    reveal_strlit("onward_flight");
    reveal_strlit("operating_airline_disclosure");
    reveal_strlit("operational_suffix");
    reveal_strlit("operational_suffix2");
    reveal_strlit("passenger_reservations_booking_designator");
    reveal_strlit("passenger_reservations_booking_modifier");
    reveal_strlit("passenger_terminal_arrival");
    reveal_strlit("passenger_terminal_departure");
    reveal_strlit("period_of_operation_from");
    reveal_strlit("period_of_operation_to");
    reveal_strlit("record_serial_number");
    reveal_strlit("record_type");
    reveal_strlit("scheduled_time_of_aircraft_arrival");
    reveal_strlit("scheduled_time_of_aircraft_departure");
    reveal_strlit("scheduled_time_of_passenger_arrival");
    reveal_strlit("scheduled_time_of_passenger_departure");
    reveal_strlit("secure_flight_indicator");
    reveal_strlit("service_type");
    reveal_strlit("time_variation_arrival");
    reveal_strlit("time_variation_departure");
    reveal_strlit("traffic_restriction_code");
    reveal_strlit("traffic_restriction_code_leg_overflow_indicator");
    let names = flight_column_names();
    assert(names.len() == 47);
    assert(names[0].len() == 17);
    assert(names[1].len() == 18);
    assert(names[2].len() == 18);
    assert(names[3].len() == 27);
    assert(names[4].len() == 13);
    assert(names[5].len() == 30);
    assert(names[6].len() == 19);
    assert(names[7].len() == 12);
    assert(names[8].len() == 24);
    assert(names[9].len() == 22);
    assert(names[10].len() == 17);
    assert(names[11].len() == 14);
    assert(names[12].len() == 17);
    assert(names[13].len() == 37);
    assert(names[14].len() == 36);
    assert(names[15].len() == 24);
    assert(names[16].len() == 28);
    assert(names[17].len() == 15);
    assert(names[18].len() == 34);
    assert(names[19].len() == 35);
    assert(names[20].len() == 22);
    assert(names[21].len() == 26);
    assert(names[22].len() == 13);
    assert(names[23].len() == 41);
    assert(names[24].len() == 39);
    assert(names[25].len() == 17);
    assert(names[26].len() == 35);
    assert(names[27].len() == 36);
    assert(names[28].len() == 34);
    assert(names[29].len() == 23);
    assert(names[30].len() == 39);
    assert(names[31].len() == 14);
    assert(names[32].len() == 21);
    assert(names[33].len() == 19);
    assert(names[34].len() == 13);
    assert(names[35].len() == 19);
    assert(names[36].len() == 14);
    assert(names[37].len() == 25);
    assert(names[38].len() == 19);
    assert(names[39].len() == 22);
    assert(names[40].len() == 28);
    assert(names[41].len() == 24);
    assert(names[42].len() == 47);
    assert(names[43].len() == 22);
    assert(names[44].len() == 14);
    assert(names[45].len() == 11);
    assert(names[46].len() == 20);
    assert(names[0][0] != names[10][0]);
    assert(names[0][0] != names[12][0]);
    assert(names[0][0] != names[25][0]);
    assert(names[1][0] != names[2][0]);
    assert(names[4][0] != names[22][0]);
    assert(names[4][0] != names[34][0]);
    assert(names[6][0] != names[33][0]);
    assert(names[6][0] != names[35][0]);
    assert(names[6][0] != names[38][0]);
    assert(names[8][0] != names[15][0]);
    assert(names[8][0] != names[41][0]);
    assert(names[9][0] != names[20][0]);
    assert(names[9][0] != names[39][0]);
    assert(names[9][0] != names[43][0]);
    assert(names[10][1] != names[12][1]);
    assert(names[10][0] != names[25][0]);
    assert(names[11][0] != names[31][0]);
    assert(names[11][1] != names[36][1]);
    assert(names[11][0] != names[44][0]);
    assert(names[12][0] != names[25][0]);
    assert(names[14][0] != names[27][0]);
    assert(names[15][1] != names[41][1]);
    assert(names[16][0] != names[40][0]);
    assert(names[18][0] != names[28][0]);
    assert(names[19][0] != names[26][0]);
    assert(names[20][0] != names[39][0]);
    assert(names[20][0] != names[43][0]);
    assert(names[22][0] != names[34][0]);
    assert(names[24][0] != names[30][0]);
    assert(names[31][0] != names[36][0]);
    assert(names[31][0] != names[44][0]);
    assert(names[33][0] != names[35][0]);
    assert(names[33][0] != names[38][0]);
    assert(names[35][0] != names[38][0]);
    assert(names[36][0] != names[44][0]);
    assert(names[39][0] != names[43][0]);
}

/// No two columns of a segment table bear the same name.
pub proof fn lemma_segment_columns_differ()
    ensures
        no_repeats(segment_column_names()),
{
    reveal_strlit("airline_designator");
    reveal_strlit("board_point");
    reveal_strlit("board_point_indicator");
    reveal_strlit("control_duplicate_indicator");
    reveal_strlit("data");
    reveal_strlit("data_element_identifier");
    reveal_strlit("flight_designator");
    reveal_strlit("flight_number");
    reveal_strlit("itinerary_variation_identifier");
    reveal_strlit("itinerary_variation_identifier_overflow");
    reveal_strlit("leg_sequence_number");
    reveal_strlit("off_point");
    reveal_strlit("off_point_indicator");
    reveal_strlit("operational_suffix");
    reveal_strlit("record_serial_number");
    reveal_strlit("record_type");
    let names = segment_column_names();
    assert(names.len() == 16);
    assert(names[0].len() == 17);
    assert(names[1].len() == 18);
    assert(names[2].len() == 18);
    assert(names[3].len() == 27);
    assert(names[4].len() == 13);
    assert(names[5].len() == 30);
    assert(names[6].len() == 19);
    assert(names[7].len() == 39);
    assert(names[8].len() == 21);
    assert(names[9].len() == 19);
    assert(names[10].len() == 23);
    assert(names[11].len() == 11);
    assert(names[12].len() == 9);
    assert(names[13].len() == 4);
    assert(names[14].len() == 11);
    assert(names[15].len() == 20);
    assert(names[1][0] != names[2][0]);
    assert(names[6][0] != names[9][0]);
    assert(names[11][0] != names[14][0]);
}

} // verus!
