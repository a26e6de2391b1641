[package]
name = "leo_compiler"
version = "0.1.0"
edition = "2021"
publish = false

[dependencies]
bincode = "=1.3.3"
hex = "=0.4.3"
log = "=0.4.34"
serde = { version = "=1.0.229", features = ["derive"] }
sha2 = "=0.10.9"
