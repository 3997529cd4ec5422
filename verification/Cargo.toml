[package]
name = "cachelito_core"
version = "0.1.0"
edition = "2021"
publish = false

[dependencies]
once_cell = "=1.21.4"
parking_lot = "=0.12.5"
proc-macro2 = "1"
quote = "1"
syn = { version = "2", features = ["full"] }
