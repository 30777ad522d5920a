[package]
name = "slate"
version = "0.1.0"
edition = "2021"
publish = false

[dependencies]
actix-web = { version = "=4.18.1", default-features = false }
anyhow = "=1.0.104"
axum = { version = "=0.8.9", default-features = false }
bytes = "=1.12.1"
http = "=1.5.0"
http-body-util = "=0.1.5"
mime_guess = "=2.0.5"
parking_lot = "=0.12.5"
rand = "=0.10.3"
reqwest = { version = "=0.12.28", default-features = false, features = ["rustls-tls"] }
rquickjs = { version = "=0.14.0", features = ["futures", "loader", "macro"] }
rquickjs-serde = "=0.8.0"
rust-embed = "=8.13.0"
salvo = { version = "=0.93.0", default-features = false, features = ["server", "http1"] }
sha2 = "=0.10.9"
tokio = { version = "=1.54.1", features = ["rt", "rt-multi-thread", "sync", "time"] }
tower = { version = "=0.5.3", features = ["util"] }
tower-service = "=0.3.3"
tracing = "=0.1.44"
url = "=2.5.8"
warp = { version = "=0.4.3", default-features = false, features = ["server"] }
