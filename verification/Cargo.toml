[package]
name = "gemgame"
version = "0.1.0"
edition = "2021"
publish = false

[dependencies]
rand = "0.8"
noise = "0.7"
tokio = { version = "1", features = ["rt-multi-thread", "macros", "net", "sync", "signal"] }
tokio-tungstenite = "0.14"
futures-util = "0.3"
bincode = "1"
serde = { version = "1", features = ["derive"] }
log = "0.4"
flexi_logger = "0.17"
structopt = "0.3"
thiserror = "1"
parking_lot = "0.11"
sqlx = { version = "0.5", default-features = false, features = ["runtime-tokio-rustls", "postgres"] }
