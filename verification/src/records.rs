//! The three record families of a schedule file.

pub mod carrier_record;
pub mod flight_leg_records;
pub mod flight_segment;
pub mod segment_records;
