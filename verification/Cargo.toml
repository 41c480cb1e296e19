[package]
name = "ez_excel_mgt"
version = "0.1.0"
edition = "2021"
publish = false

[dependencies]
umya-spreadsheet = "*"
polars = { version = "*", default-features = false }
