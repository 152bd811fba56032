[package]
name = "metric_engine"
version = "0.1.0"
edition = "2021"
publish = false

[dependencies]
rustc_apfloat = "*"
regex = "*"
serde = { version = "*", features = ["derive"] }
serde_json = "*"
lexopt = "*"
log = "*"
env_logger = "*"
snafu = "*"
rasn = "*"
rasn-smi = "*"
rasn-snmp = "*"
