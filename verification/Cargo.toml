[package]
name = "fapt"
version = "0.1.0"
edition = "2021"
publish = false

[dependencies]
deb-version = "*"
hex = "0.4"
mailparse = "*"
sha2 = "*"
chrono = "0.4"
anyhow = "1"
flate2 = "1"
gpgrv = "*"
distro-keyring = "*"
directories = "*"
tempfile = "3"
tempfile-fast = "*"
filetime = "*"
reqwest = { version = "*", default-features = false, features = ["blocking"] }
clap = { version = "4", features = ["derive"] }

[dev-dependencies]
