[package]
name = "forser"
version = "0.1.0"
edition = "2021"
publish = false

[dependencies]
regex = "1"
thiserror = "1"
clap = { version = "4", features = ["derive"] }
lazy_static = "1"
serde = { version = "1", features = ["derive"] }
tinytemplate = "1"
