[package]
name = "cargo_cult"
version = "0.1.0"
edition = "2021"
publish = false

[dependencies]
anyhow = "1"
async-trait = "0.1"
chrono = { version = "0.4", features = ["serde"] }
clap = { version = "4", features = ["derive"] }
crossterm = "0.27"
dirs = "5"
dotenv = "0.15"
futures = "0.3"
glob = "0.3"
reqwest = { version = "0.11", features = ["json"] }
russh = "0.45"
russh-keys = "0.45"
serde = { version = "1", features = ["derive"] }
tokio = { version = "1", features = ["full"] }
whoami = "1"
