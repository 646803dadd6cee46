[package]
name = "scatters"
version = "0.1.0"
edition = "2021"
publish = false

[dependencies]
chrono = "*"
clap = { version = "*", features = ["derive"] }
walkdir = "*"
serde_json = "*"
calamine = "*"
symphonia = { version = "*", features = ["all"] }
polars = { version = "*", features = ["parquet", "json"] }
