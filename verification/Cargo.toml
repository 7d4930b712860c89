[package]
name = "content"
version = "0.1.0"
edition = "2021"
publish = false

[dependencies]
tokio = { version = "1", features = ["full"] }
dotenvy = "0.15"
serde_json = "1"
tokio-rustls = "*"
mlua = { version = "*", features = ["lua54", "vendored"] }
deno_core = "*"
deno_error = "*"
