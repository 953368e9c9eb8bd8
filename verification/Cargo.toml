[package]
name = "ws_bridge"
version = "0.1.0"
edition = "2021"
publish = false

[dependencies]
actix = "=0.13.5"
actix-files = "=0.6.10"
actix-web = { version = "=4.18.1", default-features = false, features = ["macros", "ws"] }
actix-web-actors = "=4.3.1"
bytes = "=1.12.1"
futures = "=0.3.34"
tokio = { version = "=1.54.1", features = ["net", "io-util"] }
tokio-util = { version = "=0.7.20", features = ["codec"] }
uuid = { version = "=1.29.0", features = ["v4"] }
