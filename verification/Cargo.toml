[package]
name = "burdbot"
version = "0.1.0"
edition = "2021"
publish = false

[dependencies]
aes = "=0.7.5"
async-ctrlc = "=1.2.0"
base64 = "=0.21.7"
bimap = "=0.6.3"
blake3 = { version = "=1.8.7", features = ["traits-preview", "pure"] }
bytes = "=1.12.1"
chrono = "=0.4.45"
digest = "=0.10.7"
futures = "=0.3.34"
hex = "=0.4.3"
log = "=0.4.35"
once_cell = "=1.21.4"
petgraph = "=0.6.5"
regex = "=1.13.1"
reqwest = "=0.11.27"
rusqlite = "=0.31.0"
scraper = { version = "=0.19.1", features = ["deterministic"] }
serenity = "=0.12.5"
simplelog = "=0.12.2"
simsearch = "=0.2.5"
strum = { version = "=0.26.3", features = ["derive"] }
thiserror = "=1.0.69"
tokio = { version = "=1.54.1", features = ["full"] }
urlencoding = "=2.1.3"

[dev-dependencies]
lazy_static = "=1.5.1"
rand = "=0.8.8"
rand_pcg = "=0.3.1"
