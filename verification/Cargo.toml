[package]
name = "phenix"
version = "0.1.0"
edition = "2021"
publish = false

[dependencies]
convert_case = "*"
clap = { version = "*", features = ["derive"] }
notify = "*"
crossbeam-channel = "*"
parking_lot = "*"
