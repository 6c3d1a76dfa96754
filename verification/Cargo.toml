[package]
name = "flowlens"
version = "0.1.0"
edition = "2021"
publish = false

[dependencies]
anyhow = "1"
chrono = "0.4"
clap = { version = "4", features = ["derive"] }
etherparse = "*"
httparse = "1"
listeners = "*"
moka = { version = "0.12", features = ["sync"] }
pcap = "2"
ratatui = "*"
serde = { version = "1", features = ["derive"] }
serde_json = "1"
tls-parser = "0.12"
