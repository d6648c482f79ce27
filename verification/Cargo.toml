[package]
name = "quantbt"
version = "0.1.0"
edition = "2021"
publish = false

[dependencies]
rayon = "1"
num_cpus = "1"
serde = { version = "1", features = ["derive"] }
serde_json = "1"
chrono = "0.4"
csv = "1"
clap = { version = "4", features = ["derive"] }
thiserror = "1"
log = "0.4"
