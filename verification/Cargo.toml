[package]
name = "w4on2_shared"
version = "0.1.0"
edition = "2021"
publish = false

[dependencies]
midly = { version = "0.5", default-features = false, features = ["std", "alloc"] }
clap = { version = "4", features = ["derive"] }
serde = { version = "1", features = ["derive"] }
toml = "0.8"
wav = "1"

[dev-dependencies]
rand = "0.8"
