//! Builders of tables.

pub mod ssim_dataframe;
