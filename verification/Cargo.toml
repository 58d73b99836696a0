[package]
name = "clairvoyance"
version = "0.1.0"
edition = "2021"
publish = false

[dependencies]
integer-encoding = "3"
smallvec = "1"
byte-unit = "4"
tokio = { version = "1", features = ["full"] }
heim = { version = "0.1.0-rc.1", features = ["process", "net"] }
futures = "0.3"
pin-utils = "0.1"
anyhow = "1"
argh = "0.1"
fern = "0.6"
log = "0.4"
chrono = "0.4"
parse_duration = "2"
num_cpus = "1"
plotters = { version = "0.3", default-features = false, features = ["svg_backend", "line_series"] }
serde = { version = "1", features = ["derive"] }
serde_json = "1"
