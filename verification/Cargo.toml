[package]
name = "csv_sharder"
version = "0.1.0"
edition = "2021"
publish = false

[dependencies]
csv = "*"
memmap2 = "*"
rust_xlsxwriter = "*"
