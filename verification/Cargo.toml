[package]
name = "spire_achievements_tracker"
version = "0.1.0"
edition = "2021"
publish = false

[dependencies]
eframe = "0.15"
egui = "0.15"
rodio = { version = "0.14", default-features = false, features = ["vorbis"] }
serde = { version = "1", features = ["derive"] }
serde_json = "1"
