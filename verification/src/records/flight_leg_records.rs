//! One flight leg of a carrier's schedule.

use vstd::prelude::*;

verus! {

/// One flight leg (record type 3).
#[derive(Debug, Clone)]
pub struct FlightLegRecord {
    /// Composite key that ties the leg to its carrier and its segments.
    pub flight_designator: String,
    /// Operational suffix.
    pub operational_suffix: String,
    /// Airline designator.
    pub airline_designator: String,
    /// Taken over from the carrier, never read from the leg's own line.
    pub control_duplicate_indicator: String,
    /// Flight number.
    pub flight_number: String,
    /// Itinerary variation identifier.
    pub itinerary_variation_identifier: String,
    /// Leg sequence number.
    pub leg_sequence_number: String,
    /// Service type.
    pub service_type: String,
    /// First day of operation.
    pub period_of_operation_from: String,
    /// Last day of operation.
    pub period_of_operation_to: String,
    /// Days of the week on which the leg operates.
    pub days_of_operation: String,
    /// Frequency rate.
    pub frequency_rate: String,
    /// Departure station.
    pub departure_station: String,
    /// Scheduled time of passenger departure.
    pub scheduled_time_of_passenger_departure: String,
    /// Scheduled time of aircraft departure.
    pub scheduled_time_of_aircraft_departure: String,
    /// UTC offset at the departure station.
    pub time_variation_departure: String,
    /// Passenger terminal at the departure station.
    pub passenger_terminal_departure: String,
    /// Arrival station.
    pub arrival_station: String,
    /// Scheduled time of aircraft arrival.
    pub scheduled_time_of_aircraft_arrival: String,
    /// Scheduled time of passenger arrival.
    pub scheduled_time_of_passenger_arrival: String,
    /// UTC offset at the arrival station.
    pub time_variation_arrival: String,
    /// Passenger terminal at the arrival station.
    pub passenger_terminal_arrival: String,
    /// Aircraft type.
    pub aircraft_type: String,
    /// Booking designator, outer blanks removed.
    pub passenger_reservations_booking_designator: String,
    /// Booking modifier.
    pub passenger_reservations_booking_modifier: String,
    /// Meal service note.
    pub meal_service_note: String,
    /// Joint operation airline designators.
    pub joint_operation_airline_designators: String,
    /// Minimum connecting time status at departure.
    pub min_connecting_time_status_departure: String,
    /// Minimum connecting time status at arrival.
    pub min_connecting_time_status_arrival: String,
    /// Secure flight indicator.
    pub secure_flight_indicator: String,
    /// Overflow character of the itinerary variation identifier.
    pub itinerary_variation_identifier_overflow: String,
    /// Aircraft owner, outer blanks removed.
    pub aircraft_owner: String,
    /// Cockpit crew employer, outer blanks removed.
    pub cockpit_crew_employer: String,
    /// Cabin crew employer, outer blanks removed.
    pub cabin_crew_employer: String,
    /// Onward flight as one text, outer blanks removed.
    pub onward_flight: String,
    /// Airline designator of the onward flight.
    pub airline_designator2: String,
    /// Flight number of the onward flight.
    pub flight_number2: String,
    /// Aircraft rotation layover.
    pub aircraft_rotation_layover: String,
    /// Operational suffix of the onward flight.
    pub operational_suffix2: String,
    /// Flight transit layover.
    pub flight_transit_layover: String,
    /// Operating airline disclosure.
    pub operating_airline_disclosure: String,
    /// Traffic restriction code.
    pub traffic_restriction_code: String,
    /// Overflow indicator of the traffic restriction code.
    pub traffic_restriction_code_leg_overflow_indicator: String,
    /// Aircraft configuration.
    pub aircraft_configuration: String,
    /// Date variation.
    pub date_variation: String,
    /// First character of the line.
    pub record_type: char,
    /// Serial number of the line within the file.
    pub record_serial_number: String,
}

/// A flight leg as plain text values.
pub struct FlightLegView {
    pub flight_designator: Seq<char>,
    pub operational_suffix: Seq<char>,
    pub airline_designator: Seq<char>,
    pub control_duplicate_indicator: Seq<char>,
    pub flight_number: Seq<char>,
    pub itinerary_variation_identifier: Seq<char>,
    pub leg_sequence_number: Seq<char>,
    pub service_type: Seq<char>,
    pub period_of_operation_from: Seq<char>,
    pub period_of_operation_to: Seq<char>,
    pub days_of_operation: Seq<char>,
    pub frequency_rate: Seq<char>,
    pub departure_station: Seq<char>,
    pub scheduled_time_of_passenger_departure: Seq<char>,
    pub scheduled_time_of_aircraft_departure: Seq<char>,
    pub time_variation_departure: Seq<char>,
    pub passenger_terminal_departure: Seq<char>,
    pub arrival_station: Seq<char>,
    pub scheduled_time_of_aircraft_arrival: Seq<char>,
    pub scheduled_time_of_passenger_arrival: Seq<char>,
    pub time_variation_arrival: Seq<char>,
    pub passenger_terminal_arrival: Seq<char>,
    pub aircraft_type: Seq<char>,
    pub passenger_reservations_booking_designator: Seq<char>,
    pub passenger_reservations_booking_modifier: Seq<char>,
    pub meal_service_note: Seq<char>,
    pub joint_operation_airline_designators: Seq<char>,
    pub min_connecting_time_status_departure: Seq<char>,
    pub min_connecting_time_status_arrival: Seq<char>,
    pub secure_flight_indicator: Seq<char>,
    pub itinerary_variation_identifier_overflow: Seq<char>,
    pub aircraft_owner: Seq<char>,
    pub cockpit_crew_employer: Seq<char>,
    pub cabin_crew_employer: Seq<char>,
    pub onward_flight: Seq<char>,
    pub airline_designator2: Seq<char>,
    pub flight_number2: Seq<char>,
    pub aircraft_rotation_layover: Seq<char>,
    pub operational_suffix2: Seq<char>,
    pub flight_transit_layover: Seq<char>,
    pub operating_airline_disclosure: Seq<char>,
    pub traffic_restriction_code: Seq<char>,
    pub traffic_restriction_code_leg_overflow_indicator: Seq<char>,
    pub aircraft_configuration: Seq<char>,
    pub date_variation: Seq<char>,
    pub record_type: char,
    pub record_serial_number: Seq<char>,
}

impl View for FlightLegRecord {
    type V = FlightLegView;

    open spec fn view(&self) -> FlightLegView {
        FlightLegView {
            flight_designator: self.flight_designator@,
            operational_suffix: self.operational_suffix@,
            airline_designator: self.airline_designator@,
            control_duplicate_indicator: self.control_duplicate_indicator@,
            flight_number: self.flight_number@,
            itinerary_variation_identifier: self.itinerary_variation_identifier@,
            leg_sequence_number: self.leg_sequence_number@,
            service_type: self.service_type@,
            period_of_operation_from: self.period_of_operation_from@,
            period_of_operation_to: self.period_of_operation_to@,
            days_of_operation: self.days_of_operation@,
            frequency_rate: self.frequency_rate@,
            departure_station: self.departure_station@,
            scheduled_time_of_passenger_departure: self.scheduled_time_of_passenger_departure@,
            scheduled_time_of_aircraft_departure: self.scheduled_time_of_aircraft_departure@,
            time_variation_departure: self.time_variation_departure@,
            passenger_terminal_departure: self.passenger_terminal_departure@,
            arrival_station: self.arrival_station@,
            scheduled_time_of_aircraft_arrival: self.scheduled_time_of_aircraft_arrival@,
            scheduled_time_of_passenger_arrival: self.scheduled_time_of_passenger_arrival@,
            time_variation_arrival: self.time_variation_arrival@,
            passenger_terminal_arrival: self.passenger_terminal_arrival@,
            aircraft_type: self.aircraft_type@,
            passenger_reservations_booking_designator: self.passenger_reservations_booking_designator@,
            passenger_reservations_booking_modifier: self.passenger_reservations_booking_modifier@,
            meal_service_note: self.meal_service_note@,
            joint_operation_airline_designators: self.joint_operation_airline_designators@,
            min_connecting_time_status_departure: self.min_connecting_time_status_departure@,
            min_connecting_time_status_arrival: self.min_connecting_time_status_arrival@,
            secure_flight_indicator: self.secure_flight_indicator@,
            itinerary_variation_identifier_overflow: self.itinerary_variation_identifier_overflow@,
            aircraft_owner: self.aircraft_owner@,
            cockpit_crew_employer: self.cockpit_crew_employer@,
            cabin_crew_employer: self.cabin_crew_employer@,
            onward_flight: self.onward_flight@,
            airline_designator2: self.airline_designator2@,
            flight_number2: self.flight_number2@,
            aircraft_rotation_layover: self.aircraft_rotation_layover@,
            operational_suffix2: self.operational_suffix2@,
            flight_transit_layover: self.flight_transit_layover@,
            operating_airline_disclosure: self.operating_airline_disclosure@,
            traffic_restriction_code: self.traffic_restriction_code@,
            traffic_restriction_code_leg_overflow_indicator: self.traffic_restriction_code_leg_overflow_indicator@,
            aircraft_configuration: self.aircraft_configuration@,
            date_variation: self.date_variation@,
            record_type: self.record_type,
            record_serial_number: self.record_serial_number@,
        }
    }
}

impl FlightLegRecord {
    /// A copy that holds the same text in every field.
    pub fn duplicate(&self) -> (copy: FlightLegRecord)
        ensures
            copy@ == self@,
    {
        FlightLegRecord {
            flight_designator: self.flight_designator.clone(),
            operational_suffix: self.operational_suffix.clone(),
            airline_designator: self.airline_designator.clone(),
            control_duplicate_indicator: self.control_duplicate_indicator.clone(),
            flight_number: self.flight_number.clone(),
            itinerary_variation_identifier: self.itinerary_variation_identifier.clone(),
            leg_sequence_number: self.leg_sequence_number.clone(),
            service_type: self.service_type.clone(),
            period_of_operation_from: self.period_of_operation_from.clone(),
            period_of_operation_to: self.period_of_operation_to.clone(),
            days_of_operation: self.days_of_operation.clone(),
            frequency_rate: self.frequency_rate.clone(),
            departure_station: self.departure_station.clone(),
            scheduled_time_of_passenger_departure: self.scheduled_time_of_passenger_departure.clone(),
            scheduled_time_of_aircraft_departure: self.scheduled_time_of_aircraft_departure.clone(),
            time_variation_departure: self.time_variation_departure.clone(),
            passenger_terminal_departure: self.passenger_terminal_departure.clone(),
            arrival_station: self.arrival_station.clone(),
            scheduled_time_of_aircraft_arrival: self.scheduled_time_of_aircraft_arrival.clone(),
            scheduled_time_of_passenger_arrival: self.scheduled_time_of_passenger_arrival.clone(),
            time_variation_arrival: self.time_variation_arrival.clone(),
            passenger_terminal_arrival: self.passenger_terminal_arrival.clone(),
            aircraft_type: self.aircraft_type.clone(),
            passenger_reservations_booking_designator: self.passenger_reservations_booking_designator.clone(),
            passenger_reservations_booking_modifier: self.passenger_reservations_booking_modifier.clone(),
            meal_service_note: self.meal_service_note.clone(),
            joint_operation_airline_designators: self.joint_operation_airline_designators.clone(),
            min_connecting_time_status_departure: self.min_connecting_time_status_departure.clone(),
            min_connecting_time_status_arrival: self.min_connecting_time_status_arrival.clone(),
            secure_flight_indicator: self.secure_flight_indicator.clone(),
            itinerary_variation_identifier_overflow: self.itinerary_variation_identifier_overflow.clone(),
            aircraft_owner: self.aircraft_owner.clone(),
            cockpit_crew_employer: self.cockpit_crew_employer.clone(),
            cabin_crew_employer: self.cabin_crew_employer.clone(),
            onward_flight: self.onward_flight.clone(),
            airline_designator2: self.airline_designator2.clone(),
            flight_number2: self.flight_number2.clone(),
            aircraft_rotation_layover: self.aircraft_rotation_layover.clone(),
            operational_suffix2: self.operational_suffix2.clone(),
            flight_transit_layover: self.flight_transit_layover.clone(),
            operating_airline_disclosure: self.operating_airline_disclosure.clone(),
            traffic_restriction_code: self.traffic_restriction_code.clone(),
            traffic_restriction_code_leg_overflow_indicator: self.traffic_restriction_code_leg_overflow_indicator.clone(),
            aircraft_configuration: self.aircraft_configuration.clone(),
            date_variation: self.date_variation.clone(),
            record_type: self.record_type,
            record_serial_number: self.record_serial_number.clone(),
        }
    }
}

} // verus!
