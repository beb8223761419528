[package]
name = "oxide_engine_core"
version = "0.1.0"
edition = "2021"
publish = false

[dependencies]
ab_glyph = "0.2"
thiserror = "2"
serde = { version = "1", features = ["derive"] }
serde_json = "1"
ron = "*"
toml = "*"
gltf = "1"
egui = "*"
glam = "*"
