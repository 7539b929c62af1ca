[package]
name = "game_prototypes"
version = "0.1.0"
edition = "2021"
publish = false

[dependencies]
fastrand = "=2.5.0"
macroquad = { version = "=0.4.16", features = ["audio"] }
