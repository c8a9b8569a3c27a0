[package]
name = "wallace"
version = "0.1.0"
edition = "2021"
publish = false

[dependencies]
byteorder = "1"
bzip2 = "0.4"
clap = "2"
csv = "1"
serde = { version = "1", features = ["derive"] }
serde_json = "1"
thiserror = "1"
