[package]
name = "energy_harness"
version = "0.1.0"
edition = "2021"
publish = false

[dependencies]
rand = "0.8"
rustc-demangle = "0.1"
serde = { version = "1", features = ["derive"] }
serde_json = "1"
serde_tuple = "0.5"
csv = "1"
chrono = "0.4"
clap = { version = "4", features = ["derive"] }
caps = "0.5"
indicatif = "0.17"
cargo_toml = "0.15"
syn = { version = "2", features = ["full", "visit"] }
proc-macro2 = { version = "1", features = ["span-locations"] }
statrs = "0.16"
rstats = "*"
linux-perf-data = "*"
