[package]
name = "ssdd_on_top"
version = "0.1.0"
edition = "2021"
publish = false

[dependencies]
anyhow = "=1.0.104"
serde = { version = "=1.0.229", features = ["derive"] }
serde_json = "=1.0.154"
serde_json_borrow = "=0.9.0"
async-graphql = { version = "=7.2.1", default-features = false, features = ["dataloader", "graphiql"] }
hyper = { version = "=1.12.0", features = ["server", "http1"] }
hyper-util = { version = "=0.1.21", features = ["tokio"] }
http-body-util = "=0.1.5"
bytes = "=1.12.1"
tokio = { version = "=1.54.1", features = ["rt-multi-thread", "net", "macros"] }
reqwest = { version = "=0.12.28", default-features = false, features = ["json"] }
url = "=2.5.8"
futures = "=0.3.34"
