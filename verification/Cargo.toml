[package]
name = "aa_editor"
version = "0.1.0"
edition = "2021"
publish = false

[dependencies]
anyhow = "1"
encoding_rs = "0.8"
gtk4 = "0.9"
serde = { version = "1", features = ["derive"] }
serde_json = "1"
