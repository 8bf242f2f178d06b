[package]
name = "prism_core"
version = "0.1.0"
edition = "2021"
publish = false

[dependencies]
regex = "1"
sha2 = "0.10"
uuid = { version = "1", features = ["v4"] }
serde = { version = "1", features = ["derive"] }
serde_json = "1"
anyhow = "1"
thiserror = "1"
log = "0.4"
tokio = { version = "1", features = ["macros", "rt-multi-thread", "io-std", "sync"] }
async-trait = "0.1"
cln-plugin = "*"
cln-rpc = "*"
