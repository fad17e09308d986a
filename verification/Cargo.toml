[package]
name = "openapi_tools"
version = "0.1.0"
edition = "2021"
publish = false

[dependencies]
anyhow = "=1.0.104"
openapiv3 = "=2.2.0"
reqwest = { version = "=0.13.5", features = ["json", "query"] }
rmcp = { version = "=3.5.1", features = ["server", "transport-io"] }
serde_json = "=1.0.151"
tokio = { version = "=1.53.2", features = ["macros", "rt-multi-thread"] }
tracing = "=0.1.44"
tracing-subscriber = { version = "=0.3.23", features = ["env-filter"] }
