[package]
name = "okaeri_configs"
version = "0.1.0"
edition = "2021"
publish = false

[dependencies]
serde = { version = "1", features = ["derive"] }
serde_json = { version = "1", features = ["preserve_order"] }
json5 = "0.4"
toml = { version = "0.8", features = ["preserve_order"] }
serde_yaml_bw = "*"
thiserror = "2"
