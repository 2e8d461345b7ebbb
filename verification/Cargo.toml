[package]
name = "todos_api"
version = "0.1.0"
edition = "2021"
publish = false

[dependencies]
uuid = { version = "=1.27.0", features = ["v4"] }
redis = { version = "=1.7.1", features = ["tokio-comp"] }
tokio = { version = "=1.53.2", features = ["macros", "rt-multi-thread"] }
warp = { version = "=0.4.3", features = ["server"] }
bytes = "=1.12.1"
log = "=0.4.34"
env_logger = "=0.11.11"
