[package]
name = "rmap"
version = "0.1.0"
edition = "2021"
publish = false

[dependencies]
regex = "*"
num_cpus = "*"
tokio = { version = "*", features = ["full"] }
clap = { version = "*", features = ["derive"] }
serde = { version = "*", features = ["derive"] }
serde_json = "*"
serde_yaml = "*"
tabled = "*"
indicatif = "*"
mlua = { version = "*", features = ["lua54", "vendored"] }
