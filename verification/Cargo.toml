[package]
name = "zippity"
version = "0.1.0"
edition = "2021"
publish = false

[dependencies]
chrono = "=0.4.45"
crc32fast = "=1.5.4"
http-range-header = "=0.4.2"
indexmap = "=2.14.2"
lru = "=0.19.0"
actix-web = { version = "=4.18.1", default-features = false }
bytes = "=1.12.1"
consume_on_drop = "=0.1.1"
futures-core = "=0.3.34"
proptest = "=1.12.0"
tempfile = "=3.27.0"
thiserror = "=1.0.69"
tokio = { version = "=1.54.1", features = ["fs", "io-util", "rt", "sync"] }

[dev-dependencies]
zip = { version = "=0.6.6", default-features = false }
