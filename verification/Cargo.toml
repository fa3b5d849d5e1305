[package]
name = "vea"
version = "0.1.0"
edition = "2021"
publish = false

[dependencies]
num-bigint = "0.4"
num-traits = "0.2"
unsigned-varint = "0.8"
regex = "1"
serde = { version = "1", features = ["derive"] }
toml = "0.8"
zip = { version = "2", default-features = false, features = ["deflate"] }
png = "0.17"
log = "0.4"
env_logger = "0.11"
raylib = "5"
once_cell = "1"
tokio = { version = "1", features = ["rt-multi-thread", "macros", "io-std"] }
tower-lsp = "0.20"
notify-rust = "4"
