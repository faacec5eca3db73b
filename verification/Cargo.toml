[package]
name = "config_tools"
version = "0.1.0"
edition = "2021"
publish = false

[dependencies]
rust-ini = "0.21"
serde = { version = "1", features = ["derive"] }
syn = "2"
quote = "1"
proc-macro2 = "1"
