[package]
name = "predictions"
version = "0.1.0"
edition = "2021"
publish = false

[dependencies]
r2d2_redis = "0.14"
tokio = { version = "1", features = ["macros", "rt-multi-thread"] }
warp = { version = "0.3", default-features = false }
