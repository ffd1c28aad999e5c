[package]
name = "codex_cost_meter"
version = "0.7.0"
edition = "2021"
publish = false

[dependencies]
clap = { version = "4", features = ["derive"] }
jiff = "0.2"
rusqlite = { version = "*", features = ["bundled"] }
serde = { version = "1", features = ["derive"] }
serde_json = "1"
thiserror = "2"
time = { version = "0.3", features = ["formatting", "parsing", "macros", "serde"] }
