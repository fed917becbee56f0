[package]
name = "ultralog"
version = "0.1.0"
edition = "2021"
publish = false

[dependencies]
encoding_rs = "0.8"
memmap2 = "0.9"
serde = { version = "1", features = ["derive"] }
