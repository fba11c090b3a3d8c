[package]
name = "cartpole"
version = "0.1.0"
edition = "2021"
publish = false

[dependencies]
serde_json = "=1.0.151"
fomat-macros = "*"
gstuff = { version = "=0.8.30", default-features = false }
