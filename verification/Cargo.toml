[package]
name = "amo"
version = "0.1.0"
edition = "2021"
publish = false

[dependencies]
anyhow = "1"
apt-auth-config = "=0.6.1"
chrono = { version = "=0.4.45", default-features = false, features = ["clock"] }
futures = "0.3"
inotify = "=0.11.5"
oma-pm-operation-type = "=0.10.2"
oma-tum = "=0.6.2"
oma-utils = { version = "=0.14.0", default-features = false }
os_pipe = "1"
reqwest-middleware = "=0.5.2"
rustls = { version = "0.23", default-features = false, features = ["ring", "std"] }
serde = { version = "1", features = ["derive"] }
serde_json = "=1.0.154"
sha2 = "=0.11.1"
tokio = { version = "=1.54.1", features = ["rt-multi-thread", "macros", "sync", "time", "signal"] }
tracing = "0.1"
tracing-subscriber = { version = "0.3", features = ["env-filter"] }
tracing-tree = { version = "=0.4.1", features = ["time"] }
zbus = { version = "=5.19.0", default-features = false, features = ["tokio"] }
zbus_polkit = { version = "=5.1.0", default-features = false, features = ["tokio"] }
