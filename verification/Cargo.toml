[package]
name = "radar_pipeline"
version = "0.1.0"
edition = "2021"
publish = false

[dependencies]
chrono = "*"
rand = "*"
tokio = { version = "*", features = ["rt", "sync", "time", "macros", "net", "io-util"] }
camino = "*"
clap = { version = "*", features = ["derive"] }
log = "*"
env_logger = "*"
serde_json = "*"
duct = "*"
defmt-decoder = "*"
tokio-serial = "*"
