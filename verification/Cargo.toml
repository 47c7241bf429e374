[package]
name = "rag_core"
version = "0.1.0"
edition = "2021"
publish = false

[dependencies]
lopdf = "*"
pdf-extract = "*"
serde = { version = "*", features = ["derive"] }
serde_json = "*"
axum = { version = "*", features = ["multipart"] }
tokio = { version = "*", features = ["macros", "rt-multi-thread", "net", "time"] }
tower-http = { version = "*", features = ["cors"] }
reqwest = { version = "*", default-features = false, features = ["json"] }
