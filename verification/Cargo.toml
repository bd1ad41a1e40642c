[package]
name = "rusty_ssim_core"
version = "0.1.0"
edition = "2021"
publish = false

[dependencies]
clap = { version = "4", features = ["derive"] }
csv = "1"
polars = { version = "*", features = ["lazy", "parquet", "csv", "json", "dtype-struct"] }
rayon = "1"
serde = { version = "1", features = ["derive"] }
