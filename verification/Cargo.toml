[package]
name = "gitk_rs"
version = "0.1.0"
edition = "2021"
publish = false

[dependencies]
chrono = "0.4"
egui = { version = "0.27", default-features = false }
git2 = { version = "0.18", default-features = false }
