[package]
name = "inox2d_mcp"
version = "0.1.0"
edition = "2021"
publish = false

[dependencies]
base64 = "=0.22.1"
cgl = "0.3"
glam = "=0.34.2"
glow = "=0.18.0"
image = { version = "=0.25.10", default-features = false, features = ["png"] }
khronos-egl = { version = "=6.0.0", features = ["dynamic"] }
rmcp = { version = "=3.8.0", features = ["server", "macros", "transport-io"] }
schemars = "=1.2.3"
serde = { version = "=1.0.229", features = ["derive"] }
serde_json = "=1.0.154"
tokio = { version = "=1.54.1", features = ["macros", "rt-multi-thread", "io-std"] }
tracing = "=0.1.44"
tracing-subscriber = "=0.3.23"
