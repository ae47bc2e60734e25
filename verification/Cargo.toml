[package]
name = "tivilsta"
version = "0.1.0"
edition = "2021"
publish = false

[dependencies]
fancy-regex = "*"
urlparse = "*"
idna = "*"
serde_json = "1"
reqwest = { version = "*", default-features = false, features = ["blocking", "rustls-tls"] }
tempfile = "*"
rand = "*"
num_cpus = "*"
clap = { version = "*", features = ["derive"] }
