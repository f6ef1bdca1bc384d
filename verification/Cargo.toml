[package]
name = "vectorctl"
version = "0.1.0"
edition = "2021"
publish = false

[dependencies]
async-trait = "0.1"
base64 = "0.22"
chrono = { version = "0.4", features = ["serde"] }
clap = { version = "4", features = ["derive", "env"] }
fnv = "1"
handlebars = "6"
qdrant-client = { version = "1", default-features = false, features = ["serde"] }
rand = "0.9"
rustc-hash = "2"
serde = { version = "1", features = ["derive"] }
serde_json = "1"
thiserror = "2"
tinyvec = "1"
tokio = { version = "1", features = ["rt-multi-thread", "macros", "fs"] }
url = "2"
uuid = { version = "1", features = ["v7"] }

[dev-dependencies]
regex = "1"
