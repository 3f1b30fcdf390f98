[package]
name = "erlang_etf"
version = "0.1.0"
edition = "2021"
publish = false

[dependencies]
libflate = "*"
cassette = "*"
parking_lot = "*"
