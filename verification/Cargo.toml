[package]
name = "automancy"
version = "0.1.0"
edition = "2021"
publish = false

[dependencies]
string-interner = "=0.20.0"
zstd = "=0.14.3"
log = "=0.4.34"
serde = { version = "=1.0.229", features = ["derive"] }
serde_json = "=1.0.154"
glam = "=0.32.1"
hexx = "=0.25.0"
