[package]
name = "libp2p_dog"
version = "0.1.0"
edition = "2021"
publish = false

[dependencies]
libp2p = { version = "=0.54.1", default-features = false, features = ["tokio", "tcp", "noise", "yamux", "gossipsub", "identify", "macros", "serde"] }
libp2p-identity = { version = "=0.2.14", features = ["peerid", "rand"] }
rand = "=0.8.8"
cuckoofilter = "=0.5.0"
hex_fmt = "=0.3.0"
web-time = "=1.1.0"
prometheus-client = "=0.22.3"
futures-timer = "=3.0.4"
futures = "=0.3.34"
asynchronous-codec = "=0.7.0"
bytes = "=1.12.1"
quick-protobuf = "=0.8.1"
quick-protobuf-codec = "=0.3.1"
tracing = "=0.1.44"
void = "=1.0.2"
fnv = "=1.0.7"
clap = { version = "4", features = ["derive"] }
toml = "0.8"
serde = { version = "1", features = ["derive"] }
serde_json = "1"
tokio = { version = "1", features = ["full"] }
tracing-subscriber = { version = "0.3", features = ["env-filter"] }
