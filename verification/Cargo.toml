[package]
name = "learn"
version = "0.1.0"
edition = "2021"
publish = false

[dependencies]
ena = "=0.14.4"
derive_more = { version = "=2.1.1", features = ["display", "from"] }
miette = { version = "=7.6.0", features = ["fancy"] }
thiserror = "=2.0.21"
fern = "=0.7.1"
humantime = "=2.4.0"
log = "=0.4.35"
owo-colors = "=4.4.0"
