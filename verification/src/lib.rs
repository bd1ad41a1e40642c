//! Streaming ingestion of SSIM schedule files: the fixed-width field grammar,
//! the batch reader that keeps a flight leg together with its segments, and
//! the output strategies that turn flushed batches into tables.
//!
//! A schedule file is a run of carrier sections. A section opens with a
//! season header, holds flight legs, each followed by its segments, and
//! closes with a trailer.
//!
//! - [`utils::ssim_parser`] cuts a line into a typed record.
//! - [`utils::ssim_reader`] takes lines one by one, tracks the active
//!   carrier and hands batches of records to an output strategy.
//! - [`utils::ssim_processors`] and [`utils::ssim_writers`] are the output
//!   strategies: one joined table, three tables, a text file that grows
//!   batch by batch, one file per carrier.
//! - [`table`] holds the tables and joins them; [`frames`] hands them over
//!   as polars data frames, [`csv_text`] writes them as comma-separated
//!   text.
//! - [`utils::reader_laws`], [`utils::table_laws`], [`utils::carrier_laws`]
//!   and [`utils::join_laws`] state what holds whatever the batch size.
//!
//! The library reads no file and writes none: it is handed lines and hands
//! back tables, data frames or bytes.

pub mod converters;
pub mod csv_text;
pub mod frames;
pub mod generators;
pub mod json;
mod key_index;
pub mod records;
pub mod table;
pub mod utils;

pub use crate::utils::ssim_parser_iterator::ssim_iterator;
pub use crate::utils::ssim_processors::{
    parse_to_split_tables, parse_to_table, ssim_to_dataframe, ssim_to_dataframes,
};
