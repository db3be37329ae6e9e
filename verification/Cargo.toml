[package]
name = "soaprun_server"
version = "0.1.0"
edition = "2021"
publish = false

[dependencies]
rand = "0.8"
clap = { version = "4", features = ["derive"] }
serde = { version = "1", features = ["derive"] }
serde_json = "1"
thiserror = "1"
parking_lot = "0.12"
glob = "0.3"
encoding_rs = "0.8"
encoding_rs_io = "0.1"
websocket = { version = "0.27", default-features = false, features = ["sync"] }
