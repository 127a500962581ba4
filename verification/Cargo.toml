[package]
name = "tuneterm"
version = "0.1.0"
edition = "2021"
publish = false

[dependencies]
anyhow = "1"
image = { version = "=0.25.10", default-features = false, features = ["png", "jpeg"] }
lofty = "=0.22.4"
prost = "=0.14.4"
quick-xml = "=0.40.1"
ratatui = { version = "=0.29.0", default-features = false, features = ["crossterm"] }
ratatui-image = { version = "=8.1.1", default-features = false }
tokio = { version = "1", features = ["rt-multi-thread", "net", "sync", "time", "signal"] }
tokio-stream = { version = "0.1", features = ["net"] }
tonic = "=0.14.9"
tonic-prost = "=0.14.9"
ureq = { version = "=3.5.1", default-features = false, features = ["rustls"] }
