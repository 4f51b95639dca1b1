[package]
name = "verilog_hierarchy"
version = "0.1.0"
edition = "2021"
publish = false

[dependencies]
sv-parser = "*"
serde = { version = "*", features = ["derive"] }
