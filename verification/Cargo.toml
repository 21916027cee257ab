[package]
name = "desktop_native"
version = "0.1.0"
edition = "2021"
publish = false

[dependencies]
anyhow = "1"
base64 = "0.22"
ctap-hid-fido2 = "3"
dirs = "5"
napi = { version = "2", features = ["async", "napi4"] }
napi-derive = "2"
oo7 = { version = "0.3", default-features = false, features = ["tokio", "native_crypto"] }
serde = { version = "1", features = ["derive"] }
serde_json = "1"
sha2 = "0.10"
tokio = { version = "1", features = ["rt", "rt-multi-thread", "sync", "net", "io-util", "macros", "time"] }
zbus = { version = "4", default-features = false, features = ["tokio"] }
zbus_polkit = "4"
