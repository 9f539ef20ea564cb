[package]
name = "dbus_explorer"
version = "0.1.0"
edition = "2021"
publish = false

[dependencies]
urlencoding = "2"
axum = "0.8"
tokio = { version = "1", features = ["rt-multi-thread", "net", "macros"] }
dbus = { version = "0.9", features = ["vendored"] }
thiserror = "2"
