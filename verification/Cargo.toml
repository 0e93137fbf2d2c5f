[package]
name = "phantom"
version = "0.1.0"
edition = "2021"
publish = false

[dependencies]
itertools = "*"
logos = "*"
serde = { version = "1", features = ["derive"] }
serde_json = "1"
clap = { version = "4", features = ["derive"] }
dialoguer = "*"
strum = "*"
strum_macros = "*"
log = "0.4"
chrono = "0.4"
once_cell = "1"
dashmap = "*"
ropey = "1"
tokio = { version = "1", features = ["full"] }
tower-lsp = "0.20"
