[package]
name = "gazu"
version = "0.2.1"
edition = "2021"
publish = false

[dependencies]
anyhow = "1"
sekien = "0.3"
serde_json = "1"
