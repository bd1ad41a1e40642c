//! From the tables of one batch to one joined table.

pub mod ssim_tables;
