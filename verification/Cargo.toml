[package]
name = "aeser"
version = "0.1.0"
edition = "2021"
publish = false

[dependencies]
base64 = "0.22"
blake2 = "0.10"
bs58 = "0.5"
change-case = "*"
clap = { version = "4", features = ["derive"] }
num-bigint = "0.4"
num-traits = "0.2"
rustler = "*"
serde = { version = "1", features = ["derive"] }
sha256 = { version = "1", default-features = false }
toml = "*"
wasm-bindgen = "0.2"
web-sys = { version = "*", features = ["console"] }
