[package]
name = "arci"
version = "0.1.0"
edition = "2021"
publish = false

[dependencies]
async-trait = "0.1"
nalgebra = "*"
serde = { version = "1", features = ["derive"] }
serde_json = "1"
structopt = "0.3"
tokio = { version = "1", features = ["macros", "rt-multi-thread", "time"] }
tracing = "0.1"
tracing-subscriber = "0.3"
ureq = { version = "2", features = ["json"] }
url = "2"
