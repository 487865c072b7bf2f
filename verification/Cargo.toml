[package]
name = "rustbase_cli"
version = "0.1.0"
edition = "2021"
publish = false

[dependencies]
scram = "*"
bson = "2"
serde = { version = "1", features = ["derive"] }
tokio = { version = "1", features = ["full"] }
tokio-rustls = "0.23"
rustls = "0.20"
rustls-pemfile = "1"
webpki = "0.22"
clap = { version = "3", features = ["derive"] }
rustyline = "10"
rustyline-derive = "*"
colored = "2"
unicode-width = "0.1"
