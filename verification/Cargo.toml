[package]
name = "bl3_save_edit_core"
version = "0.1.0"
edition = "2021"
publish = false

[dependencies]
anyhow = "1"
iced = { version = "0.3", features = ["tokio"] }
once_cell = "1"
ron = "*"
serde = { version = "1", features = ["derive"] }
snap = "1"
tokio = { version = "1", features = ["rt"] }
