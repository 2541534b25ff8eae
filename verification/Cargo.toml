[package]
name = "rust_data_processing_engine"
version = "0.1.0"
edition = "2021"
publish = false

[dependencies]
actix-cors = "*"
actix-web = { version = "*", default-features = false, features = ["macros"] }
base64 = "*"
chrono = "*"
clap = { version = "*", features = ["derive"] }
log = "*"
num_cpus = "*"
rand = "*"
serde = { version = "*", features = ["derive"] }
serde_json = "*"
serde_yaml = "*"
