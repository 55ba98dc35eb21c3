[package]
name = "webgpui"
version = "0.1.0"
edition = "2021"
publish = false

[dependencies]
resvg = "0.45"
image = { version = "=0.25.10", default-features = false, features = ["png", "jpeg"] }
thiserror = "1"
log = "0.4"
env_logger = { version = "0.11", default-features = false }
bytemuck = { version = "1", features = ["derive"] }
