[package]
name = "emote_guess"
version = "0.1.0"
edition = "2021"
publish = false

[dependencies]
rand = "=0.9.5"
rand_chacha = "=0.9.0"
serde = { version = "1", features = ["derive"] }
serde_json = "1"
tokio = { version = "1", features = ["full"] }
warp = "=0.3.7"
futures-util = "0.3"
reqwest = { version = "=0.12.28", default-features = false, features = ["json", "rustls-tls"] }
jwt-simple = { version = "=0.12.17", default-features = false, features = ["pure-rust", "jwe"] }
thiserror = "2"
