[package]
name = "tag_water"
version = "0.1.0"
edition = "2021"
publish = false

[dependencies]
chrono = "0.4"
rocket = { version = "0.5", features = ["json"] }
rocket_dyn_templates = { version = "0.2", features = ["tera"] }
rusqlite = { version = "*", features = ["bundled"] }
serde = { version = "1", features = ["derive"] }
serde_json = "1"
