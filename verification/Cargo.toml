[package]
name = "gaze"
version = "0.3.0"
edition = "2021"
publish = false

[dependencies]
aes-gcm = "=0.11.1"
anyhow = "=1.0.104"
console = "=0.16.6"
dialoguer = "=0.12.0"
enumflags2 = "=0.7.12"
futures = "=0.3.34"
getrandom = "=0.4.3"
libc = "=0.2.191"
ndarray = "=0.17.2"
ort = { version = "=2.0.0-rc.15", default-features = false, features = ["std", "ndarray", "load-dynamic", "openvino"] }
serde = { version = "=1.0.229", features = ["derive"] }
sha2 = "=0.11.1"
tokio = { version = "=1.54.1", features = ["rt-multi-thread", "macros", "time"] }
toml_edit = { version = "=0.25.17+spec-1.1.0", features = ["serde"] }
tracing = "=0.1.44"
tracing-subscriber = { version = "=0.3.23", features = ["env-filter"] }
zbus = { version = "=6.2.1", default-features = false, features = ["tokio"] }
zbus_polkit = { version = "=6.0.0", default-features = false, features = ["tokio"] }
zeroize = "=1.9.1"
