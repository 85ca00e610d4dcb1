[package]
name = "oneplayer"
version = "0.0.1"
edition = "2021"
publish = false

[dependencies]
chrono = "=0.4.45"
chrono-tz = "=0.10.4"
sha2 = "=0.10.9"
urlencoding = "=2.1.3"
lru = "=0.12.5"
dirs = "=5.0.1"
anyhow = "=1.0.104"
bytemuck = { version = "=1.25.2", features = ["derive"] }
egui-wgpu = { version = "=0.31.1", default-features = false }
egui-winit = { version = "=0.31.1", default-features = false }
image = { version = "=0.25.10", default-features = false, features = ["jpeg", "png"] }
pollster = "=0.4.0"
reqwest = { version = "=0.12.28", default-features = false, features = ["json", "rustls-tls"] }
serde = { version = "=1.0.229", features = ["derive", "rc"] }
serde_json = "=1.0.154"
tokio = { version = "=1.54.1", features = ["full"] }
toml = "=0.8.23"
tracing = "=0.1.44"
tracing-appender = "=0.2.5"
tracing-subscriber = { version = "=0.3.23", features = ["env-filter"] }
wgpu = { version = "=24.0.5", default-features = false, features = ["wgsl", "dx12"] }
windows = { version = "=0.58.0", features = ["Win32_System_Power"] }
winit = { version = "=0.30.13", default-features = false, features = ["x11", "rwh_06"] }
