//! Joining the tables of one batch: every flight leg with its carrier and
//! with its segments.
//!
//! A leg finds its carrier by airline designator and control/duplicate
//! indicator, and its segments by flight designator, control/duplicate
//! indicator and leg sequence number.

use crate::generators::ssim_dataframe::{
    carrier_column_names, carrier_table, flight_column_names, flight_table, segment_column_names,
    segment_table,
};
use crate::records::carrier_record::CarrierView;
use crate::records::flight_leg_records::FlightLegView;
use crate::records::segment_records::SegmentView;
use crate::table::{
    column_at, columns_at, columns_kept, left_join_of, lemma_column_at, lemma_column_found,
    lemma_columns_found, lemma_kept_column_found, lemma_kept_is_prefix, no_repeats, pick_names,
    projected, texts_view, Table, TableView,
};
use crate::utils::errors::SsimError;
use vstd::prelude::*;

verus! {

/// The columns that say where a record stood in the file; they leave the
/// flight table before it is joined.
pub open spec fn bookkeeping_columns() -> Seq<Seq<char>> {
    seq!["record_type"@, "record_serial_number"@]
}

/// The columns by which a leg finds its carrier.
pub open spec fn carrier_key() -> Seq<Seq<char>> {
    seq!["airline_designator"@, "control_duplicate_indicator"@]
}

/// The columns that a leg takes along from its carrier.
pub open spec fn carrier_details() -> Seq<Seq<char>> {
    seq![
        "time_mode"@,
        "season"@,
        "period_of_schedule_validity_from"@,
        "period_of_schedule_validity_to"@,
        "creation_date"@,
        "title_of_data"@,
        "release_date"@,
        "schedule_status"@,
        "general_information"@,
        "in_flight_service_information"@,
        "electronic_ticketing_information"@,
        "creation_time"@,
    ]
}

/// The columns by which a leg finds its segments.
pub open spec fn segment_key() -> Seq<Seq<char>> {
    seq!["flight_designator"@, "control_duplicate_indicator"@, "leg_sequence_number"@]
}

/// The columns that a leg takes along from each of its segments.
pub open spec fn segment_details() -> Seq<Seq<char>> {
    seq![
        "board_point_indicator"@,
        "off_point_indicator"@,
        "board_point"@,
        "off_point"@,
        "data_element_identifier"@,
        "data"@,
    ]
}

/// The flight table without its bookkeeping columns, every leg followed by
/// the details of its carrier.
pub open spec fn carrier_and_flights_of(carrier: TableView, flights: TableView) -> Option<
    TableView,
> {
    left_join_of(
        projected(flights, columns_kept(flights.names, bookkeeping_columns())),
        carrier,
        carrier_key(),
        carrier_details(),
        None,
    )
}

/// Every leg followed by the details of its segments: a row per segment,
/// or one row with the segments gathered into the column `segment_data`.
pub open spec fn flights_and_segments_of(
    flights: TableView,
    segments: TableView,
    condense_segments: bool,
) -> Option<TableView> {
    left_join_of(
        flights,
        segments,
        segment_key(),
        segment_details(),
        if condense_segments {
            Some("segment_data"@)
        } else {
            None
        },
    )
}

/// The joined table of one batch.
pub open spec fn combined_of(
    carrier: TableView,
    flights: TableView,
    segments: TableView,
    condense_segments: bool,
) -> Option<TableView> {
    match carrier_and_flights_of(carrier, flights) {
        Some(with_carrier) => flights_and_segments_of(with_carrier, segments, condense_segments),
        None => None,
    }
}

fn bookkeeping() -> (names: Vec<String>)
    ensures
        texts_view(names@) == bookkeeping_columns(),
{
    let names = vec!["record_type".to_owned(), "record_serial_number".to_owned()];
    assert(texts_view(names@) =~= bookkeeping_columns());
    names
}

/// The columns by which a carrier is told from another.
pub fn carrier_key_names() -> (names: Vec<String>)
    ensures
        texts_view(names@) == carrier_key(),
{
    let names = vec!["airline_designator".to_owned(), "control_duplicate_indicator".to_owned()];
    assert(texts_view(names@) =~= carrier_key());
    names
}

fn carrier_detail_names() -> (names: Vec<String>)
    ensures
        texts_view(names@) == carrier_details(),
{
    let names = vec![
        "time_mode".to_owned(),
        "season".to_owned(),
        "period_of_schedule_validity_from".to_owned(),
        "period_of_schedule_validity_to".to_owned(),
        "creation_date".to_owned(),
        "title_of_data".to_owned(),
        "release_date".to_owned(),
        "schedule_status".to_owned(),
        "general_information".to_owned(),
        "in_flight_service_information".to_owned(),
        "electronic_ticketing_information".to_owned(),
        "creation_time".to_owned(),
    ];
    assert(texts_view(names@) =~= carrier_details());
    names
}

fn segment_key_names() -> (names: Vec<String>)
    ensures
        texts_view(names@) == segment_key(),
{
    let names = vec![
        "flight_designator".to_owned(),
        "control_duplicate_indicator".to_owned(),
        "leg_sequence_number".to_owned(),
    ];
    assert(texts_view(names@) =~= segment_key());
    names
}

/// The columns that a leg takes along from each of its segments; under
/// these names the details of a segment also stand in a JSON object.
pub fn segment_detail_names() -> (names: Vec<String>)
    ensures
        texts_view(names@) == segment_details(),
{
    let names = vec![
        "board_point_indicator".to_owned(),
        "off_point_indicator".to_owned(),
        "board_point".to_owned(),
        "off_point".to_owned(),
        "data_element_identifier".to_owned(),
        "data".to_owned(),
    ];
    assert(texts_view(names@) =~= segment_details());
    names
}

/// Joins the flight legs of a batch with their carrier.
///
/// The flight table loses its bookkeeping columns; every leg then takes
/// along the details of the carrier with its airline designator and
/// control/duplicate indicator, or empty cells when there is no such
/// carrier. A table that lacks a key or detail column is refused.
pub fn combine_carrier_and_flights(carrier: &Table, flights: &Table) -> (combined: Result<
    Table,
    SsimError,
>)
    ensures
        match combined {
            Ok(table) => carrier_and_flights_of(carrier@, flights@) == Some(table@),
            Err(e) => carrier_and_flights_of(carrier@, flights@) is None && e is MissingColumn,
        },
{
    let slim = flights.without_columns(&bookkeeping());
    slim.left_join(carrier, &carrier_key_names(), &carrier_detail_names(), None)
}

/// Joins the flight legs of a batch with their segments, a row per segment.
///
/// Every leg takes along the details of each segment with its flight
/// designator, control/duplicate indicator and leg sequence number; a leg
/// without segments stays, with empty cells. A table that lacks a key or
/// detail column is refused.
pub fn combine_flights_and_segments(flights: &Table, segments: &Table) -> (combined: Result<
    Table,
    SsimError,
>)
    ensures
        match combined {
            Ok(table) => flights_and_segments_of(flights@, segments@, false) == Some(table@),
            Err(e) => flights_and_segments_of(flights@, segments@, false) is None
                && e is MissingColumn,
        },
{
    flights.left_join(segments, &segment_key_names(), &segment_detail_names(), None)
}

/// Joins the flight legs of a batch with their segments, a row per leg: the
/// details of all segments of a leg are gathered into the one cell
/// `segment_data`, which is empty for a leg without segments.
pub fn condense_flights_and_segments(flights: &Table, segments: &Table) -> (combined: Result<
    Table,
    SsimError,
>)
    ensures
        match combined {
            Ok(table) => flights_and_segments_of(flights@, segments@, true) == Some(table@),
            Err(e) => flights_and_segments_of(flights@, segments@, true) is None
                && e is MissingColumn,
        },
{
    flights.left_join(segments, &segment_key_names(), &segment_detail_names(), Some("segment_data"))
}

/// Joins the three tables of one batch into one: every leg with its carrier
/// and with its segments, a row per segment or, condensed, a row per leg.
pub fn combine_all_dataframes(
    carrier: &Table,
    flights: &Table,
    segments: &Table,
    condense_segments: bool,
) -> (combined: Result<Table, SsimError>)
    ensures
        match combined {
            Ok(table) => combined_of(carrier@, flights@, segments@, condense_segments) == Some(
                table@,
            ),
            Err(e) => combined_of(carrier@, flights@, segments@, condense_segments) is None
                && e is MissingColumn,
        },
{
    let with_carrier = match combine_carrier_and_flights(carrier, flights) {
        Ok(table) => table,
        Err(e) => {
            return Err(e);
        },
    };
    if condense_segments {
        condense_flights_and_segments(&with_carrier, segments)
    } else {
        combine_flights_and_segments(&with_carrier, segments)
    }
}

/// The columns of a joined table, left to right: those of the flight table
/// without the bookkeeping, those taken from the carrier, and those taken
/// from the segments (or the one that gathers them).
pub open spec fn joined_column_names(condense_segments: bool) -> Seq<Seq<char>> {
    let with_carrier = pick_names(
        flight_column_names(),
        columns_kept(flight_column_names(), bookkeeping_columns()),
    ) + carrier_details();
    if condense_segments {
        with_carrier.push("segment_data"@)
    } else {
        with_carrier + segment_details()
    }
}

/// The key columns of a leg are none of the bookkeeping columns.
proof fn lemma_keys_are_kept()
    ensures
        !bookkeeping_columns().contains("airline_designator"@),
        !bookkeeping_columns().contains("control_duplicate_indicator"@),
        !bookkeeping_columns().contains("flight_designator"@),
        !bookkeeping_columns().contains("leg_sequence_number"@),
{
    reveal_strlit("record_type");
    reveal_strlit("record_serial_number");
    reveal_strlit("airline_designator");
    reveal_strlit("control_duplicate_indicator");
    reveal_strlit("flight_designator");
    reveal_strlit("leg_sequence_number");
    let gone = bookkeeping_columns();
    assert(gone[0].len() == 11 && gone[1].len() == 20);
    assert forall|name: Seq<char>| name.len() != 11 && name.len() != 20 implies !gone.contains(
        name,
    ) by {
        if gone.contains(name) {
            let i = choose|i: int| 0 <= i < gone.len() && gone[i] == name;
            assert(i == 0 || i == 1);
        }
    }
    assert("airline_designator"@.len() == 18);
    assert("control_duplicate_indicator"@.len() == 27);
    assert("flight_designator"@.len() == 17);
    assert("leg_sequence_number"@.len() == 19);
}

/// The tables that are made from records can always be joined.
pub proof fn lemma_record_tables_combine(
    carriers: Seq<CarrierView>,
    flights: Seq<FlightLegView>,
    segments: Seq<SegmentView>,
    condense_segments: bool,
)
    ensures
        combined_of(
            carrier_table(carriers),
            flight_table(flights),
            segment_table(segments),
            condense_segments,
        ) matches Some(table) && table.names == joined_column_names(condense_segments),
{
    let flight_names = flight_column_names();
    let carrier_names = carrier_column_names();
    let segment_names = segment_column_names();
    let gone = bookkeeping_columns();
    let slim = pick_names(flight_names, columns_kept(flight_names, gone));
    lemma_keys_are_kept();
    // every key of a leg outlives the loss of the bookkeeping columns
    assert(flight_names[0] == "flight_designator"@);
    assert(flight_names[2] == "airline_designator"@);
    assert(flight_names[3] == "control_duplicate_indicator"@);
    assert(flight_names[6] == "leg_sequence_number"@);
    lemma_kept_column_found(flight_names, gone, 0);
    lemma_kept_column_found(flight_names, gone, 2);
    lemma_kept_column_found(flight_names, gone, 3);
    lemma_kept_column_found(flight_names, gone, 6);
    lemma_columns_found(slim, carrier_key());
    // the carrier table has its key and its details
    lemma_column_found(carrier_names, "airline_designator"@, 0);
    lemma_column_found(carrier_names, "control_duplicate_indicator"@, 1);
    lemma_columns_found(carrier_names, carrier_key());
    lemma_column_found(carrier_names, "time_mode"@, 2);
    lemma_column_found(carrier_names, "season"@, 3);
    lemma_column_found(carrier_names, "period_of_schedule_validity_from"@, 4);
    lemma_column_found(carrier_names, "period_of_schedule_validity_to"@, 5);
    lemma_column_found(carrier_names, "creation_date"@, 6);
    lemma_column_found(carrier_names, "title_of_data"@, 7);
    lemma_column_found(carrier_names, "release_date"@, 8);
    lemma_column_found(carrier_names, "schedule_status"@, 9);
    lemma_column_found(carrier_names, "general_information"@, 10);
    lemma_column_found(carrier_names, "in_flight_service_information"@, 11);
    lemma_column_found(carrier_names, "electronic_ticketing_information"@, 12);
    lemma_column_found(carrier_names, "creation_time"@, 13);
    lemma_columns_found(carrier_names, carrier_details());
    // the joined table still has the key by which segments are found
    let with_carrier = slim + carrier_details();
    assert forall|k: int| 0 <= k < segment_key().len() implies column_at(
        with_carrier,
        #[trigger] segment_key()[k],
    ) is Some by {
        let name = segment_key()[k];
        crate::table::lemma_column_at(slim, name);
        let at = column_at(slim, name)->0;
        assert(with_carrier[at] == name);
        lemma_column_found(with_carrier, name, at);
    }
    lemma_columns_found(with_carrier, segment_key());
    // the segment table has its key and its details
    lemma_column_found(segment_names, "flight_designator"@, 0);
    lemma_column_found(segment_names, "control_duplicate_indicator"@, 3);
    lemma_column_found(segment_names, "leg_sequence_number"@, 6);
    lemma_columns_found(segment_names, segment_key());
    lemma_column_found(segment_names, "board_point_indicator"@, 8);
    lemma_column_found(segment_names, "off_point_indicator"@, 9);
    lemma_column_found(segment_names, "data_element_identifier"@, 10);
    lemma_column_found(segment_names, "board_point"@, 11);
    lemma_column_found(segment_names, "off_point"@, 12);
    lemma_column_found(segment_names, "data"@, 13);
    lemma_columns_found(segment_names, segment_details());
}

/// The columns of a joined table, name by name.
pub open spec fn joined_names_listed(condense_segments: bool) -> Seq<Seq<char>> {
    if condense_segments {
        (flight_column_names().take(45) + carrier_details()).push("segment_data"@)
    } else {
        flight_column_names().take(45) + carrier_details() + segment_details()
    }
}

/// The bookkeeping columns are the last two of a flight table, so that a
/// joined table starts with all the others.
pub proof fn lemma_joined_names_are_listed(condense_segments: bool)
    ensures
        joined_column_names(condense_segments) == joined_names_listed(condense_segments),
{
    let names = flight_column_names();
    let gone = bookkeeping_columns();
    reveal_strlit("record_type");
    reveal_strlit("record_serial_number");
    reveal_strlit("flight_designator");
    reveal_strlit("operational_suffix");
    reveal_strlit("airline_designator");
    reveal_strlit("control_duplicate_indicator");
    reveal_strlit("flight_number");
    reveal_strlit("itinerary_variation_identifier");
    reveal_strlit("leg_sequence_number");
    reveal_strlit("service_type");
    reveal_strlit("period_of_operation_from");
    reveal_strlit("period_of_operation_to");
    reveal_strlit("days_of_operation");
    reveal_strlit("frequency_rate");
    reveal_strlit("departure_station");
    reveal_strlit("scheduled_time_of_passenger_departure");
    reveal_strlit("scheduled_time_of_aircraft_departure");
    reveal_strlit("time_variation_departure");
    reveal_strlit("passenger_terminal_departure");
    reveal_strlit("arrival_station");
    reveal_strlit("scheduled_time_of_aircraft_arrival");
    reveal_strlit("scheduled_time_of_passenger_arrival");
    reveal_strlit("time_variation_arrival");
    reveal_strlit("passenger_terminal_arrival");
    reveal_strlit("aircraft_type");
    reveal_strlit("passenger_reservations_booking_designator");
    reveal_strlit("passenger_reservations_booking_modifier");
    reveal_strlit("meal_service_note");
    reveal_strlit("joint_operation_airline_designators");
    reveal_strlit("min_connecting_time_status_departure");
    reveal_strlit("min_connecting_time_status_arrival");
    reveal_strlit("secure_flight_indicator");
    reveal_strlit("itinerary_variation_identifier_overflow");
    reveal_strlit("aircraft_owner");
    reveal_strlit("cockpit_crew_employer");
    reveal_strlit("cabin_crew_employer");
    reveal_strlit("onward_flight");
    reveal_strlit("airline_designator2");
    reveal_strlit("flight_number2");
    reveal_strlit("aircraft_rotation_layover");
    reveal_strlit("operational_suffix2");
    reveal_strlit("flight_transit_layover");
    reveal_strlit("operating_airline_disclosure");
    reveal_strlit("traffic_restriction_code");
    reveal_strlit("traffic_restriction_code_leg_overflow_indicator");
    reveal_strlit("aircraft_configuration");
    reveal_strlit("date_variation");
    assert(gone[0].len() == 11 && gone[1].len() == 20);
    assert(names.len() == 47);
    assert(names[45] == gone[0]);
    assert(names[46] == gone[1]);
    assert(names[0].len() == 17);
    assert(names[1].len() == 18);
    assert(names[2].len() == 18);
    assert(names[3].len() == 27);
    assert(names[4].len() == 13);
    assert(names[5].len() == 30);
    assert(names[6].len() == 19);
    assert(names[7].len() == 12);
    assert(names[8].len() == 24);
    assert(names[9].len() == 22);
    assert(names[10].len() == 17);
    assert(names[11].len() == 14);
    assert(names[12].len() == 17);
    assert(names[13].len() == 37);
    assert(names[14].len() == 36);
    assert(names[15].len() == 24);
    assert(names[16].len() == 28);
    assert(names[17].len() == 15);
    assert(names[18].len() == 34);
    assert(names[19].len() == 35);
    assert(names[20].len() == 22);
    assert(names[21].len() == 26);
    assert(names[22].len() == 13);
    assert(names[23].len() == 41);
    assert(names[24].len() == 39);
    assert(names[25].len() == 17);
    assert(names[26].len() == 35);
    assert(names[27].len() == 36);
    assert(names[28].len() == 34);
    assert(names[29].len() == 23);
    assert(names[30].len() == 39);
    assert(names[31].len() == 14);
    assert(names[32].len() == 21);
    assert(names[33].len() == 19);
    assert(names[34].len() == 13);
    assert(names[35].len() == 19);
    assert(names[36].len() == 14);
    assert(names[37].len() == 25);
    assert(names[38].len() == 19);
    assert(names[39].len() == 22);
    assert(names[40].len() == 28);
    assert(names[41].len() == 24);
    assert(names[42].len() == 47);
    assert(names[43].len() == 22);
    assert(names[44].len() == 14);
    assert forall|i: int| 0 <= i < 45 implies !gone.contains(#[trigger] names[i]) by {
        if gone.contains(names[i]) {
            let k = choose|k: int| 0 <= k < gone.len() && gone[k] == names[i];
            assert(k == 0 || k == 1);
            assert(names[i].len() == 11 || names[i].len() == 20);
        }
    }
    assert forall|i: int| 45 <= i < names.len() implies gone.contains(#[trigger] names[i]) by {
        assert(i == 45 || i == 46);
    }
    lemma_kept_is_prefix(names, gone, 45);
}

/// No two columns of a joined table bear the same name.
pub proof fn lemma_joined_columns_differ(condense_segments: bool)
    ensures
        no_repeats(joined_column_names(condense_segments)),
{
    lemma_joined_names_are_listed(condense_segments);
    if condense_segments {
        lemma_joined_columns_differ_condensed();
    } else {
        lemma_joined_columns_differ_wide();
    }
}

/// No two columns of a joined table bear the same name, where segments give a row each.
pub proof fn lemma_joined_columns_differ_wide()
    ensures
        no_repeats(joined_names_listed(false)),
{
    reveal_strlit("aircraft_configuration");
    reveal_strlit("aircraft_owner");
    reveal_strlit("aircraft_rotation_layover");
    reveal_strlit("aircraft_type");
    reveal_strlit("airline_designator");
    reveal_strlit("airline_designator2");
    reveal_strlit("arrival_station");
    reveal_strlit("board_point");
    reveal_strlit("board_point_indicator");
    reveal_strlit("cabin_crew_employer");
    reveal_strlit("cockpit_crew_employer");
    reveal_strlit("control_duplicate_indicator");
    reveal_strlit("creation_date");
    reveal_strlit("creation_time");
    reveal_strlit("data");
    reveal_strlit("data_element_identifier");
    reveal_strlit("date_variation");
    reveal_strlit("days_of_operation");
    reveal_strlit("departure_station");
    reveal_strlit("electronic_ticketing_information");
    reveal_strlit("flight_designator");
    reveal_strlit("flight_number");
    reveal_strlit("flight_number2");
    reveal_strlit("flight_transit_layover");
    reveal_strlit("frequency_rate");
    reveal_strlit("general_information");
    reveal_strlit("in_flight_service_information");
    reveal_strlit("itinerary_variation_identifier");
    reveal_strlit("itinerary_variation_identifier_overflow");
    reveal_strlit("joint_operation_airline_designators");
    reveal_strlit("leg_sequence_number");
    reveal_strlit("meal_service_note");
    reveal_strlit("min_connecting_time_status_arrival");
    reveal_strlit("min_connecting_time_status_departure");
    reveal_strlit("off_point");
    reveal_strlit("off_point_indicator");
    reveal_strlit("onward_flight");
    reveal_strlit("operating_airline_disclosure");
    reveal_strlit("operational_suffix");
    reveal_strlit("operational_suffix2");
    reveal_strlit("passenger_reservations_booking_designator");
    reveal_strlit("passenger_reservations_booking_modifier");
    reveal_strlit("passenger_terminal_arrival");
    reveal_strlit("passenger_terminal_departure");
    reveal_strlit("period_of_operation_from");
    reveal_strlit("period_of_operation_to");
    reveal_strlit("period_of_schedule_validity_from");
    reveal_strlit("period_of_schedule_validity_to");
    reveal_strlit("release_date");
    reveal_strlit("schedule_status");
    reveal_strlit("scheduled_time_of_aircraft_arrival");
    reveal_strlit("scheduled_time_of_aircraft_departure");
    reveal_strlit("scheduled_time_of_passenger_arrival");
    reveal_strlit("scheduled_time_of_passenger_departure");
    reveal_strlit("season");
    reveal_strlit("secure_flight_indicator");
    reveal_strlit("service_type");
    reveal_strlit("time_mode");
    reveal_strlit("time_variation_arrival");
    reveal_strlit("time_variation_departure");
    reveal_strlit("title_of_data");
    reveal_strlit("traffic_restriction_code");
    reveal_strlit("traffic_restriction_code_leg_overflow_indicator");
    let names = joined_names_listed(false);
    assert(names.len() == 63);
    assert(names[0].len() == 17);
    assert(names[1].len() == 18);
    assert(names[2].len() == 18);
    assert(names[3].len() == 27);
    assert(names[4].len() == 13);
    assert(names[5].len() == 30);
    assert(names[6].len() == 19);
    assert(names[7].len() == 12);
    assert(names[8].len() == 24);
    assert(names[9].len() == 22);
    assert(names[10].len() == 17);
    assert(names[11].len() == 14);
    assert(names[12].len() == 17);
    assert(names[13].len() == 37);
    assert(names[14].len() == 36);
    assert(names[15].len() == 24);
    assert(names[16].len() == 28);
    assert(names[17].len() == 15);
    assert(names[18].len() == 34);
    assert(names[19].len() == 35);
    assert(names[20].len() == 22);
    assert(names[21].len() == 26);
    assert(names[22].len() == 13);
    assert(names[23].len() == 41);
    assert(names[24].len() == 39);
    assert(names[25].len() == 17);
    assert(names[26].len() == 35);
    assert(names[27].len() == 36);
    assert(names[28].len() == 34);
    assert(names[29].len() == 23);
    assert(names[30].len() == 39);
    assert(names[31].len() == 14);
    assert(names[32].len() == 21);
    assert(names[33].len() == 19);
    assert(names[34].len() == 13);
    assert(names[35].len() == 19);
    assert(names[36].len() == 14);
    assert(names[37].len() == 25);
    assert(names[38].len() == 19);
    assert(names[39].len() == 22);
    assert(names[40].len() == 28);
    assert(names[41].len() == 24);
    assert(names[42].len() == 47);
    assert(names[43].len() == 22);
    assert(names[44].len() == 14);
    assert(names[45].len() == 9);
    assert(names[46].len() == 6);
    assert(names[47].len() == 32);
    assert(names[48].len() == 30);
    assert(names[49].len() == 13);
    assert(names[50].len() == 13);
    assert(names[51].len() == 12);
    assert(names[52].len() == 15);
    assert(names[53].len() == 19);
    assert(names[54].len() == 29);
    assert(names[55].len() == 32);
    assert(names[56].len() == 13);
    assert(names[57].len() == 21);
    assert(names[58].len() == 19);
    assert(names[59].len() == 11);
    assert(names[60].len() == 9);
    assert(names[61].len() == 23);
    assert(names[62].len() == 4);
    assert(names[0][0] != names[10][0]);
    assert(names[0][0] != names[12][0]);
    assert(names[0][0] != names[25][0]);
    assert(names[1][0] != names[2][0]);
    assert(names[4][0] != names[22][0]);
    assert(names[4][0] != names[34][0]);
    assert(names[4][0] != names[49][0]);
    assert(names[4][0] != names[50][0]);
    assert(names[4][0] != names[56][0]);
    assert(names[5][0] != names[48][0]);
    assert(names[6][0] != names[33][0]);
    assert(names[6][0] != names[35][0]);
    assert(names[6][0] != names[38][0]);
    assert(names[6][0] != names[53][0]);
    assert(names[6][0] != names[58][0]);
    assert(names[7][0] != names[51][0]);
    assert(names[8][0] != names[15][0]);
    assert(names[8][0] != names[41][0]);
    assert(names[9][0] != names[20][0]);
    assert(names[9][0] != names[39][0]);
    assert(names[9][0] != names[43][0]);
    assert(names[10][1] != names[12][1]);
    assert(names[10][0] != names[25][0]);
    assert(names[11][0] != names[31][0]);
    assert(names[11][1] != names[36][1]);
    assert(names[11][0] != names[44][0]);
    assert(names[12][0] != names[25][0]);
    assert(names[14][0] != names[27][0]);
    assert(names[15][1] != names[41][1]);
    assert(names[16][0] != names[40][0]);
    assert(names[17][0] != names[52][0]);
    assert(names[18][0] != names[28][0]);
    assert(names[19][0] != names[26][0]);
    assert(names[20][0] != names[39][0]);
    assert(names[20][0] != names[43][0]);
    assert(names[22][0] != names[34][0]);
    assert(names[22][0] != names[49][0]);
    assert(names[22][0] != names[50][0]);
    assert(names[22][0] != names[56][0]);
    assert(names[24][0] != names[30][0]);
    assert(names[29][0] != names[61][0]);
    assert(names[31][0] != names[36][0]);
    assert(names[31][0] != names[44][0]);
    assert(names[32][0] != names[57][0]);
    assert(names[33][0] != names[35][0]);
    assert(names[33][0] != names[38][0]);
    assert(names[33][0] != names[53][0]);
    assert(names[33][0] != names[58][0]);
    assert(names[34][0] != names[49][0]);
    assert(names[34][0] != names[50][0]);
    assert(names[34][0] != names[56][0]);
    assert(names[35][0] != names[38][0]);
    assert(names[35][0] != names[53][0]);
    assert(names[35][0] != names[58][0]);
    assert(names[36][0] != names[44][0]);
    assert(names[38][0] != names[53][0]);
    assert(names[38][1] != names[58][1]);
    assert(names[39][0] != names[43][0]);
    assert(names[45][0] != names[60][0]);
    assert(names[47][0] != names[55][0]);
    assert(names[49][0] != names[50][0]);
    assert(names[49][9] != names[56][9]);
    assert(names[50][0] != names[56][0]);
    assert(names[53][0] != names[58][0]);
}

/// No two columns of a joined table bear the same name, where segments are gathered.
pub proof fn lemma_joined_columns_differ_condensed()
    ensures
        no_repeats(joined_names_listed(true)),
{
    reveal_strlit("aircraft_configuration");
    reveal_strlit("aircraft_owner");
    reveal_strlit("aircraft_rotation_layover");
    reveal_strlit("aircraft_type");
    reveal_strlit("airline_designator");
    reveal_strlit("airline_designator2");
    reveal_strlit("arrival_station");
    reveal_strlit("cabin_crew_employer");
    reveal_strlit("cockpit_crew_employer");
    reveal_strlit("control_duplicate_indicator");
    reveal_strlit("creation_date");
    reveal_strlit("creation_time");
    reveal_strlit("date_variation");
    reveal_strlit("days_of_operation");
    reveal_strlit("departure_station");
    reveal_strlit("electronic_ticketing_information");
    reveal_strlit("flight_designator");
    reveal_strlit("flight_number");
    reveal_strlit("flight_number2");
    reveal_strlit("flight_transit_layover");
    reveal_strlit("frequency_rate");
    reveal_strlit("general_information");
    reveal_strlit("in_flight_service_information");
    reveal_strlit("itinerary_variation_identifier");
    reveal_strlit("itinerary_variation_identifier_overflow");
    reveal_strlit("joint_operation_airline_designators");
    reveal_strlit("leg_sequence_number");
    reveal_strlit("meal_service_note");
    reveal_strlit("min_connecting_time_status_arrival");
    reveal_strlit("min_connecting_time_status_departure");
    reveal_strlit("onward_flight");
    reveal_strlit("operating_airline_disclosure");
    reveal_strlit("operational_suffix");
    reveal_strlit("operational_suffix2");
    reveal_strlit("passenger_reservations_booking_designator");
    reveal_strlit("passenger_reservations_booking_modifier");
    reveal_strlit("passenger_terminal_arrival");
    reveal_strlit("passenger_terminal_departure");
    reveal_strlit("period_of_operation_from");
    reveal_strlit("period_of_operation_to");
    reveal_strlit("period_of_schedule_validity_from");
    reveal_strlit("period_of_schedule_validity_to");
    reveal_strlit("release_date");
    reveal_strlit("schedule_status");
    reveal_strlit("scheduled_time_of_aircraft_arrival");
    reveal_strlit("scheduled_time_of_aircraft_departure");
    reveal_strlit("scheduled_time_of_passenger_arrival");
    reveal_strlit("scheduled_time_of_passenger_departure");
    reveal_strlit("season");
    reveal_strlit("secure_flight_indicator");
    reveal_strlit("segment_data");
    reveal_strlit("service_type");
    reveal_strlit("time_mode");
    reveal_strlit("time_variation_arrival");
    reveal_strlit("time_variation_departure");
    reveal_strlit("title_of_data");
    reveal_strlit("traffic_restriction_code");
    reveal_strlit("traffic_restriction_code_leg_overflow_indicator");
    let names = joined_names_listed(true);
    assert(names.len() == 58);
    assert(names[0].len() == 17);
    assert(names[1].len() == 18);
    assert(names[2].len() == 18);
    assert(names[3].len() == 27);
    assert(names[4].len() == 13);
    assert(names[5].len() == 30);
    assert(names[6].len() == 19);
    assert(names[7].len() == 12);
    assert(names[8].len() == 24);
    assert(names[9].len() == 22);
    assert(names[10].len() == 17);
    assert(names[11].len() == 14);
    assert(names[12].len() == 17);
    assert(names[13].len() == 37);
    assert(names[14].len() == 36);
    assert(names[15].len() == 24);
    assert(names[16].len() == 28);
    assert(names[17].len() == 15);
    assert(names[18].len() == 34);
    assert(names[19].len() == 35);
    assert(names[20].len() == 22);
    assert(names[21].len() == 26);
    assert(names[22].len() == 13);
    assert(names[23].len() == 41);
    assert(names[24].len() == 39);
    assert(names[25].len() == 17);
    assert(names[26].len() == 35);
    assert(names[27].len() == 36);
    assert(names[28].len() == 34);
    assert(names[29].len() == 23);
    assert(names[30].len() == 39);
    assert(names[31].len() == 14);
    assert(names[32].len() == 21);
    assert(names[33].len() == 19);
    assert(names[34].len() == 13);
    assert(names[35].len() == 19);
    assert(names[36].len() == 14);
    assert(names[37].len() == 25);
    assert(names[38].len() == 19);
    assert(names[39].len() == 22);
    assert(names[40].len() == 28);
    assert(names[41].len() == 24);
    assert(names[42].len() == 47);
    assert(names[43].len() == 22);
    assert(names[44].len() == 14);
    assert(names[45].len() == 9);
    assert(names[46].len() == 6);
    assert(names[47].len() == 32);
    assert(names[48].len() == 30);
    assert(names[49].len() == 13);
    assert(names[50].len() == 13);
    assert(names[51].len() == 12);
    assert(names[52].len() == 15);
    assert(names[53].len() == 19);
    assert(names[54].len() == 29);
    assert(names[55].len() == 32);
    assert(names[56].len() == 13);
    assert(names[57].len() == 12);
    assert(names[0][0] != names[10][0]);
    assert(names[0][0] != names[12][0]);
    assert(names[0][0] != names[25][0]);
    assert(names[1][0] != names[2][0]);
    assert(names[4][0] != names[22][0]);
    assert(names[4][0] != names[34][0]);
    assert(names[4][0] != names[49][0]);
    assert(names[4][0] != names[50][0]);
    assert(names[4][0] != names[56][0]);
    assert(names[5][0] != names[48][0]);
    assert(names[6][0] != names[33][0]);
    assert(names[6][0] != names[35][0]);
    assert(names[6][0] != names[38][0]);
    assert(names[6][0] != names[53][0]);
    assert(names[7][0] != names[51][0]);
    assert(names[7][2] != names[57][2]);
    assert(names[8][0] != names[15][0]);
    assert(names[8][0] != names[41][0]);
    assert(names[9][0] != names[20][0]);
    assert(names[9][0] != names[39][0]);
    assert(names[9][0] != names[43][0]);
    assert(names[10][1] != names[12][1]);
    assert(names[10][0] != names[25][0]);
    assert(names[11][0] != names[31][0]);
    assert(names[11][1] != names[36][1]);
    assert(names[11][0] != names[44][0]);
    assert(names[12][0] != names[25][0]);
    assert(names[14][0] != names[27][0]);
    assert(names[15][1] != names[41][1]);
    assert(names[16][0] != names[40][0]);
    assert(names[17][0] != names[52][0]);
    assert(names[18][0] != names[28][0]);
    assert(names[19][0] != names[26][0]);
    assert(names[20][0] != names[39][0]);
    assert(names[20][0] != names[43][0]);
    assert(names[22][0] != names[34][0]);
    assert(names[22][0] != names[49][0]);
    assert(names[22][0] != names[50][0]);
    assert(names[22][0] != names[56][0]);
    assert(names[24][0] != names[30][0]);
    assert(names[31][0] != names[36][0]);
    assert(names[31][0] != names[44][0]);
    assert(names[33][0] != names[35][0]);
    assert(names[33][0] != names[38][0]);
    assert(names[33][0] != names[53][0]);
    assert(names[34][0] != names[49][0]);
    assert(names[34][0] != names[50][0]);
    assert(names[34][0] != names[56][0]);
    assert(names[35][0] != names[38][0]);
    assert(names[35][0] != names[53][0]);
    assert(names[36][0] != names[44][0]);
    assert(names[38][0] != names[53][0]);
    assert(names[39][0] != names[43][0]);
    assert(names[47][0] != names[55][0]);
    assert(names[49][0] != names[50][0]);
    assert(names[49][9] != names[56][9]);
    assert(names[50][0] != names[56][0]);
    assert(names[51][0] != names[57][0]);
}

/// Where the key of a carrier stands in a carrier table: in its first two
/// columns.
pub open spec fn carrier_key_columns() -> Seq<int> {
    seq![0, 1]
}

/// The key of a carrier stands in the first two columns of a carrier table.
pub proof fn lemma_carrier_key_columns()
    ensures
        columns_at(carrier_column_names(), carrier_key()) == Some(carrier_key_columns()),
{
    reveal_strlit("airline_designator");
    reveal_strlit("control_duplicate_indicator");
    let names = carrier_column_names();
    let key = carrier_key();
    assert(names[0] == "airline_designator"@);
    assert(names[1] == "control_duplicate_indicator"@);
    assert(names[0].len() == 18);
    assert(names[1].len() == 27);
    lemma_column_at(names, key[0]);
    lemma_column_at(names, key[1]);
    assert(key.drop_last() == seq![key[0]]);
    assert(key.drop_last().drop_last() == Seq::<Seq<char>>::empty());
    assert(columns_at(names, key.drop_last().drop_last()) == Some(Seq::<int>::empty()));
    assert(columns_at(names, key.drop_last()) == Some(Seq::<int>::empty().push(0)));
    assert(Seq::<int>::empty().push(0).push(1) == carrier_key_columns());
}

} // verus!
