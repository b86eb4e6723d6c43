[package]
name = "typewire"
version = "0.1.0"
edition = "2021"
publish = false

[dependencies]
base64 = "=0.22.1"
clap = { version = "=4.6.7", features = ["derive"] }
object = { version = "=0.40.0", features = ["wasm"] }
syn = { version = "=2.0.119", features = ["full"] }
walrus = "=0.27.3"
thiserror = "=2.0.21"
