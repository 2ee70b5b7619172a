[package]
name = "wind_loads"
version = "0.1.0"
edition = "2021"
publish = false

[dependencies]
anyhow = "1"
bincode = "1"
dosio = "0.1"
env_logger = { version = "0.9", default-features = false }
log = "0.4"
nalgebra = { version = "*", default-features = false, features = ["std"] }
serde = { version = "1", features = ["derive"] }
serde-pickle = "0.6"
tokio = { version = "1", features = ["macros", "rt-multi-thread"] }
vec_box = "1"
