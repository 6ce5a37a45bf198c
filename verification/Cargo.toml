[package]
name = "godot_toml"
version = "0.1.0"
edition = "2021"
publish = false

[dependencies]
fancy-regex = "*"
toml = "*"
godot = "*"
