[package]
name = "snmp_trap"
version = "0.1.0"
edition = "2021"
publish = false

[dependencies]
async-trait = "=0.1.92"
bytes = "=1.12.1"
chrono = { version = "=0.4.45", default-features = false, features = ["clock"] }
listenfd = "=1.0.2"
serde = { version = "=1.0.229", features = ["derive"] }
serde_json = "=1.0.154"
smallvec = "=1.16.4"
snmp-parser = "=0.11.0"
socket2 = "=0.6.5"
tokio = { version = "=1.54.1", features = ["net", "sync", "time", "macros", "rt"] }
toml = "=1.1.8"
vrl = { version = "=0.38.0", default-features = false, features = ["value"] }
