//! The season header of a carrier section.

use vstd::prelude::*;

verus! {

/// One season header (record type 2): the carrier whose flight legs and
/// segments follow until the trailer. Its identity is the airline designator
/// together with the control/duplicate indicator.
#[derive(Debug, Clone)]
pub struct CarrierRecord {
    /// Airline designator, three columns wide.
    pub airline_designator: String,
    /// Tells apart several schedules of one airline and season.
    pub control_duplicate_indicator: String,
    /// Time mode of the schedule (UTC or local).
    pub time_mode: String,
    /// Season code.
    pub season: String,
    /// First day of the validity window.
    pub period_of_schedule_validity_from: String,
    /// Last day of the validity window.
    pub period_of_schedule_validity_to: String,
    /// Day the data set was created.
    pub creation_date: String,
    /// Free-text title, outer blanks removed.
    pub title_of_data: String,
    /// Release (sell) date.
    pub release_date: String,
    /// Schedule status.
    pub schedule_status: String,
    /// Free-text general information, outer blanks removed.
    pub general_information: String,
    /// In-flight service information, leading blanks removed.
    pub in_flight_service_information: String,
    /// Electronic ticketing information.
    pub electronic_ticketing_information: String,
    /// Time of day the data set was created.
    pub creation_time: String,
    /// First character of the line.
    pub record_type: char,
    /// Serial number of the line within the file.
    pub record_serial_number: String,
}

/// A carrier record as plain text values.
pub struct CarrierView {
    pub airline_designator: Seq<char>,
    pub control_duplicate_indicator: Seq<char>,
    pub time_mode: Seq<char>,
    pub season: Seq<char>,
    pub period_of_schedule_validity_from: Seq<char>,
    pub period_of_schedule_validity_to: Seq<char>,
    pub creation_date: Seq<char>,
    pub title_of_data: Seq<char>,
    pub release_date: Seq<char>,
    pub schedule_status: Seq<char>,
    pub general_information: Seq<char>,
    pub in_flight_service_information: Seq<char>,
    pub electronic_ticketing_information: Seq<char>,
    pub creation_time: Seq<char>,
    pub record_type: char,
    pub record_serial_number: Seq<char>,
}

impl View for CarrierRecord {
    type V = CarrierView;

    open spec fn view(&self) -> CarrierView {
        CarrierView {
            airline_designator: self.airline_designator@,
            control_duplicate_indicator: self.control_duplicate_indicator@,
            time_mode: self.time_mode@,
            season: self.season@,
            period_of_schedule_validity_from: self.period_of_schedule_validity_from@,
            period_of_schedule_validity_to: self.period_of_schedule_validity_to@,
            creation_date: self.creation_date@,
            title_of_data: self.title_of_data@,
            release_date: self.release_date@,
            schedule_status: self.schedule_status@,
            general_information: self.general_information@,
            in_flight_service_information: self.in_flight_service_information@,
            electronic_ticketing_information: self.electronic_ticketing_information@,
            creation_time: self.creation_time@,
            record_type: self.record_type,
            record_serial_number: self.record_serial_number@,
        }
    }
}

impl CarrierRecord {
    /// A copy that holds the same text in every field.
    pub fn duplicate(&self) -> (copy: CarrierRecord)
        ensures
            copy@ == self@,
    {
        CarrierRecord {
            airline_designator: self.airline_designator.clone(),
            control_duplicate_indicator: self.control_duplicate_indicator.clone(),
            time_mode: self.time_mode.clone(),
            season: self.season.clone(),
            period_of_schedule_validity_from: self.period_of_schedule_validity_from.clone(),
            period_of_schedule_validity_to: self.period_of_schedule_validity_to.clone(),
            creation_date: self.creation_date.clone(),
            title_of_data: self.title_of_data.clone(),
            release_date: self.release_date.clone(),
            schedule_status: self.schedule_status.clone(),
            general_information: self.general_information.clone(),
            in_flight_service_information: self.in_flight_service_information.clone(),
            electronic_ticketing_information: self.electronic_ticketing_information.clone(),
            creation_time: self.creation_time.clone(),
            record_type: self.record_type,
            record_serial_number: self.record_serial_number.clone(),
        }
    }
}

} // verus!
