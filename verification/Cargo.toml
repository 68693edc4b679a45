[package]
name = "agent-block-core"
version = "0.1.0"
edition = "2021"
publish = false

[dependencies]
agent-mesh-core = "=0.4.0"
agent-mesh-sdk = "=0.4.0"
async-trait = "0.1"
axum = "=0.8.9"
dotenvy = "=0.15.7"
libc = "0.2"
llm-extract = "=0.2.0"
mlua = { version = "=0.12.2", features = ["lua54", "vendored", "async", "serialize"] }
mlua-batteries = { version = "=0.7.3", features = ["task", "fs", "http", "proc"] }
mlua-batteries-sqlite = "=0.8.1"
mlua-isle = { version = "=0.10.0", features = ["tokio"] }
mlua-pkg = "=0.11.0"
reqwest = { version = "=0.13.5", features = ["json", "stream"] }
rusqlite = "=0.40.2"
rusqlite-isle = { version = "=0.6.0", features = ["tokio"] }
schema-bridge = "=0.4.0"
schema-bridge-lshape = "=0.2.0"
serde = { version = "1", features = ["derive"] }
serde_json = "1"
serde_path_to_error = "0.1"
sha2 = "=0.10.9"
tokio = { version = "1", features = ["full"] }
tokio-util = "0.7"
tracing = "0.1"
uuid = { version = "=1.29.0", features = ["v4", "v7"] }
