//! Parsing and reading of schedule files.

pub mod carrier_laws;
pub mod errors;
pub mod join_laws;
pub mod reader_laws;
pub mod ssim_parser;
pub mod ssim_parser_iterator;
pub mod ssim_processors;
pub mod ssim_reader;
pub mod ssim_writers;
pub mod table_laws;
pub mod text;
