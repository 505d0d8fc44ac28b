[package]
name = "qloxide"
version = "0.1.0"
edition = "2021"
publish = false

[dependencies]
jiff = "0.2"
rust_decimal = "1"
serde = { version = "1", features = ["derive"] }
serde_json = "1"
toml = "0.8"
clap = { version = "4", features = ["derive"] }
thiserror = "2"
libm = "0.2"
log = "0.4"
typetag = "0.2"
clarabel = "*"
