[package]
name = "a2s"
version = "0.1.0"
edition = "2021"
publish = false

[dependencies]
bzip2 = "=0.6.1"
crc = "=1.8.1"
bstr = { version = "=1.13.1", features = ["serde"] }
thiserror = "=1.0.69"
serde = { version = "=1.0.229", features = ["derive"] }
tokio = { version = "=1.54.1", features = ["net", "time", "rt", "macros"] }
