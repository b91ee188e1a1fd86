[package]
name = "nxcloud"
version = "0.1.0"
edition = "2021"
publish = false

[dependencies]
anyhow = "*"
base64 = "*"
bytes = "*"
clap = "2"
color-eyre = "*"
dirs-next = "*"
env_logger = "*"
log = "*"
once_cell = "*"
reqwest = { version = "*", default-features = false }
rustyline = "*"
serde = { version = "*", features = ["derive"] }
serde_json = "*"
structopt = "*"
tokio = { version = "*", features = ["macros", "rt-multi-thread"] }
url = "*"
xmltree = "*"
