[package]
name = "corgi"
version = "0.1.0"
edition = "2021"
publish = false

[dependencies]
serde_json = "=1.0.154"
structopt = "=0.3.26"
tokio = { version = "=1.54.1", features = ["io-util", "macros", "net", "rt-multi-thread", "time"] }
