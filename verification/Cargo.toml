[package]
name = "datafusion_raytracer"
version = "0.1.0"
edition = "2021"
publish = false

[dependencies]
datafusion = { version = "=49.0.2", default-features = false }
env_logger = "=0.11.11"
tokio = { version = "=1.54.1", features = ["macros", "rt-multi-thread"] }
