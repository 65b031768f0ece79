[package]
name = "telepathy"
version = "0.1.0"
edition = "2021"
publish = false

[dependencies]
bytes = "1"
byteorder = "1"
rand = "0.8"
actix = "0.13"
actix-broker = "0.4"
actix-rt = "2"
tokio = { version = "1", features = ["net", "time", "sync", "rt", "macros"] }
tokio-util = { version = "0.7", features = ["codec"] }
tokio-stream = { version = "0.1", features = ["net"] }
futures = "0.3"
log = "0.4"
serde = { version = "1", features = ["derive"] }
flexbuffers = "2"
uuid = { version = "1", features = ["v4", "serde"] }
once_cell = "1"
parking_lot = "0.12"
trust-dns-resolver = "0.22"
derive_more = "0.99"
ndarray = { version = "0.15", features = ["serde"] }
