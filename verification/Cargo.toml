[package]
name = "xwayclip"
version = "0.1.0"
edition = "2021"
publish = false

[dependencies]
anyhow = "1"
blake3 = "1"
clap = { version = "4", features = ["derive"] }
rustix = { version = "1", features = ["event"] }
tracing = "0.1"
tracing-subscriber = { version = "0.3", features = ["env-filter"] }
wl-clipboard-rs = "*"
wl-clipboard-watch = "*"
x11rb = { version = "0.13", features = ["xfixes"] }
