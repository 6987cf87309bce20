[package]
name = "nhl_playlist"
version = "0.1.0"
edition = "2021"
publish = false

[dependencies]
hls_m3u8 = "0.1"
chrono = "0.4"
http = "1"
async-std = "1"
futures = "0.3"
http-client = { version = "6", default-features = false, features = ["h1_client", "rustls"] }
serde = { version = "1", features = ["derive"] }
serde_json = "1"
