[package]
name = "schema_infer"
version = "0.1.0"
edition = "2021"
publish = false

[dependencies]
serde_json = { version = "1", features = ["preserve_order"] }
serde = { version = "1", features = ["derive"] }
arrow = { version = "*", default-features = false, features = ["json"] }
arrow-schema = { version = "*", features = ["serde"] }
rs-arrow-merge-schema = "*"
