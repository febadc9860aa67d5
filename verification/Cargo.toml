[package]
name = "pic_process"
version = "1.1.0"
edition = "2021"
publish = false

[dependencies]
anyhow = "1"
axum = "0.8"
clap = { version = "4", features = ["derive"] }
csv = "=1.4.0"
image = { version = "=0.25.10", default-features = false, features = ["jpeg", "png"] }
jpeg-decoder = { version = "=0.3.2", default-features = false, features = ["platform_independent"] }
kamadak-exif = "=0.6.1"
ndarray = "0.17"
ort = { version = "=2.0.0-rc.15", default-features = false, features = ["std", "ndarray", "load-dynamic"] }
rayon = "1"
rusqlite = { version = "=0.32.1", features = ["bundled"] }
serde = { version = "1", features = ["derive"] }
serde_json = "1"
tokio = { version = "1", features = ["rt-multi-thread", "net"] }
toml = "=0.8.23"
toml_edit = "=0.22.27"
walkdir = "2"
