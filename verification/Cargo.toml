[package]
name = "savebutton_sync"
version = "0.1.0"
edition = "2021"
publish = false

[dependencies]
base64 = "0.22"
rand = "0.8"
ring = "0.17"
urlencoding = "2"
reqwest = { version = "0.12", default-features = false, features = ["blocking", "multipart", "rustls-tls"] }
tiny_http = "0.12"
native_messaging = "*"
clap = { version = "4", features = ["derive"] }
dirs = "5"
fern = "0.6"
log = "0.4"
chrono = "0.4"
serde = { version = "1", features = ["derive"] }
serde_json = "1"
toml = "0.8"
thiserror = "1"
