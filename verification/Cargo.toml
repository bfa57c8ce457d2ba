[package]
name = "voxel_world"
version = "0.1.0"
edition = "2021"
publish = false

[dependencies]
anyhow = "=1.0.104"
async-std = { version = "=1.13.2", features = ["unstable"] }
cgmath = "=0.18.0"
clap = { version = "4", features = ["derive"] }
futures = "=0.3.34"
noise = "=0.9.0"
postcard = { version = "=1.1.3", features = ["alloc"] }
quinn = { version = "=0.10.2", features = ["runtime-async-std"] }
rand = "=0.8.8"
rcgen = "=0.12.1"
rusqlite = "=0.31.0"
rustls = { version = "=0.21.12", features = ["dangerous_configuration"] }
serde = { version = "=1.0.229", features = ["derive"] }
uuid = { version = "=1.29.0", features = ["v4"] }
