[package]
name = "text_input"
version = "0.1.0"
edition = "2021"
publish = false

[dependencies]
unicode-segmentation = "1"
serde = { version = "1", features = ["derive"] }
comrak = { version = "*", default-features = false }
tokio = { version = "1", features = ["fs", "rt"] }
