[package]
name = "invaders"
version = "0.1.0"
edition = "2021"
publish = false

[dependencies]
bevy = { version = "0.16", default-features = false, features = ["std"] }
bevy_asset_loader = "0.23"
rand = "0.9"
