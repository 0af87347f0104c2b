[package]
name = "sysmon"
version = "0.1.0"
edition = "2021"
publish = false

[dependencies]
error-chain = { version = "0.10", default-features = false }
futures = "0.1"
futures-cpupool = "0.1"
getopts = "0.2"
log = "0.3"
num_cpus = "1"
serde = "0.8"
serde_derive = "0.8"
serde_json = "0.8"
time = "0.1"
tokio-core = "0.1"
tokio-io = "0.1"
tokio-signal = "0.1"
tokio-timer = "0.1"
toml = { version = "0.2", features = ["serde"] }
