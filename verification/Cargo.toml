[package]
name = "sulltec_remote"
version = "0.1.0"
edition = "2021"
publish = false

[dependencies]
base64 = "=0.22.1"
chrono = "=0.4.45"
default-net = "=0.22.0"
lazy_static = "=1.5.1"
num_cpus = "=1.17.0"
reqwest = { version = "=0.12.28", default-features = false, features = ["blocking", "json"] }
serde_json = { version = "=1.0.154", features = ["float_roundtrip"] }
sha2 = "=0.10.9"
sodiumoxide = "=0.2.7"
tokio = { version = "=1.54.1", features = ["net", "rt", "time"] }
url = "=2.5.8"
