[package]
name = "silkworm"
version = "0.1.0"
edition = "2021"
publish = false

[dependencies]
bytes = "=1.12.1"
encoding_rs = "=0.8.44"
fasttime = "=0.3.0"
rand = "=0.10.3"
regex = "=1.13.1"
reqwest = { version = "*", default-features = false }
scraper = "=0.29.0"
serde_json = "=1.0.154"
sxd-document = "=0.3.2"
sxd_html = "=0.1.3"
sxd-xpath = "=0.4.2"
thiserror = "=2.0.21"
tokio = { version = "=1.54.1", features = ["rt-multi-thread", "macros", "sync", "time", "fs", "io-util", "net"] }
url = "=2.5.8"
