[package]
name = "rocco"
version = "0.1.0"
edition = "2021"
publish = false

[dependencies]
comrak = { version = "*", default-features = false }
once_cell = "*"
ramhorns = "*"
serde = { version = "*", features = ["derive"] }
serde_json = "*"
thiserror = "*"
