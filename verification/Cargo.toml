[package]
name = "hlm"
version = "0.1.0"
edition = "2021"
publish = false

[dependencies]
calloop = "0.13"
calloop-wayland-source = "0.3"
clap = { version = "4", features = ["derive"] }
cosmic-text = "0.12"
futures-util = "0.3"
reqwest = { version = "0.12", default-features = false, features = ["json", "rustls-tls"] }
serde = { version = "1", features = ["derive"] }
serde_json = "1"
smithay-client-toolkit = { version = "0.19", default-features = false, features = ["calloop"] }
tiny-skia = "0.11"
tokio = { version = "1", features = ["rt", "time", "macros", "net"] }
tokio-tungstenite = { version = "0.26", features = ["rustls-tls-webpki-roots"] }
wayland-client = "0.31"
