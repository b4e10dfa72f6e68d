[package]
name = "watchdiff"
version = "0.1.0"
edition = "2021"
publish = false

[dependencies]
diffy = { version = "=0.5.2", features = ["std"] }
crossbeam = "=0.8.5"
notify = "=8.2.0"
serde = { version = "=1.0.229", features = ["derive"] }
serde_json = "=1.0.151"
diesel = { version = "=2.3.13", features = ["sqlite"] }
libsqlite3-sys = { version = "=0.38.2", features = ["bundled"] }
anyhow = "=1.0.104"
