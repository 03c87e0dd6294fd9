[package]
name = "shimmy"
version = "0.1.0"
edition = "2021"
publish = false

[dependencies]
anyhow = "1"
async-trait = "0.1"
candle-core = "*"
candle-transformers = "*"
serde_json = "1"
shimmytok = "*"
tokio = { version = "1", features = ["rt"] }
