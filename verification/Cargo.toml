[package]
name = "parquet_format"
version = "0.1.0"
edition = "2021"
publish = false

[dependencies]
arrow = { version = "=46.0.0", default-features = false, features = ["ipc"] }
base64 = "=0.21.7"
bytes = "=1.12.1"
chrono = "=0.4.31"
futures = "=0.3.34"
hashbrown = "=0.14.5"
object_store = { version = "=0.7.1", default-features = false }
parquet = { version = "=46.0.0", default-features = false, features = ["arrow", "async"] }
rand = "=0.8.8"
tokio = { version = "=1.54.1", features = ["io-util"] }

[dev-dependencies]
flatbuffers = "=23.5.26"
thrift = "=0.17.0"
