[package]
name = "permute_mmo_rs_ui"
version = "0.1.0"
edition = "2021"
publish = false

[dependencies]
serde = { version = "1", features = ["derive"] }
serde_json = "1"
eframe = { version = "0.20", default-features = false, features = ["glow"] }
lazy_static = "1"
log = "0.4"
env_logger = "*"
