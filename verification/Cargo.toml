[package]
name = "rtx_core"
version = "0.1.0"
edition = "2021"
publish = false

[dependencies]
console = "*"
clap = { version = "4", features = ["derive"] }
eyre = "*"
color-eyre = "*"
reqwest = { version = "0.12", default-features = false, features = ["blocking", "json", "gzip", "rustls-tls"] }
flate2 = "*"
tar = "*"
tempfile = "*"
url = "*"
which = "*"
dirs-next = "*"
env_logger = "*"
log = "*"
tera = { version = "1", default-features = false }
serde = { version = "1", features = ["derive"] }
serde_json = "*"
once_cell = "*"
rayon = "*"

[dev-dependencies]
duct = "*"
