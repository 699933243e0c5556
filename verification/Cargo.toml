[package]
name = "gpiojsonsvc"
version = "0.1.0"
edition = "2021"
publish = false

[dependencies]
futures = "=0.3.34"
inotify = "*"
libgpiod-sys = "=1.0.0"
nix = { version = "=0.31.3", features = ["event", "poll", "fs", "inotify", "signal"] }
quick-xml = { version = "=0.41.0", features = ["serialize"] }
serde = { version = "=1.0.229", features = ["derive"] }
serde_json = "=1.0.154"
smallvec = "=1.16.4"
thiserror = "=2.0.21"
tokio = { version = "=1.54.1", features = ["full"] }
tokio-util = { version = "=0.7.20", features = ["codec"] }
toml = "=1.1.8"
tracing = "=0.1.44"
tracing-subscriber = { version = "=0.3.23", features = ["env-filter"] }

[dev-dependencies]
tempfile = "=3.27.0"
