[package]
name = "face_auth"
version = "0.1.0"
edition = "2021"
publish = false

[dependencies]
bincode = "=1.3.3"
config = { version = "=0.14.1", default-features = false, features = ["toml"] }
crossterm = "=0.28.1"
eframe = { version = "=0.34.3", default-features = false, features = ["glow", "x11"] }
egui = { version = "=0.34.3", default-features = false }
libc = "0.2"
minifb = { version = "0.28", default-features = false, features = ["x11"] }
nalgebra = { version = "=0.33.3", default-features = false, features = ["std"] }
ndarray = { version = "=0.17.2", default-features = false, features = ["std"] }
ort = { version = "=2.0.0-rc.12", default-features = false, features = ["std", "ndarray", "load-dynamic", "api-22"] }
ratatui = { version = "=0.29.0", default-features = false, features = ["crossterm"] }
serde = { version = "1", features = ["derive"] }
thiserror = "=1.0.69"
tokio = { version = "1", default-features = false, features = ["rt-multi-thread", "macros", "net", "signal", "sync", "time"] }
toml = "=0.8.23"
tracing = "0.1"
tracing-subscriber = { version = "0.3", features = ["env-filter", "json"] }
