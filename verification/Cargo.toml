[package]
name = "dino"
version = "0.1.0"
edition = "2021"
publish = false

[dependencies]
anyhow = "=1.0.104"
arc-swap = "=1.9.2"
axum = "=0.6.20"
blake3 = "=1.8.7"
clap = { version = "=4.6.7", features = ["derive"] }
dashmap = "=6.2.1"
glob = "=0.3.4"
notify = "=8.2.0"
notify-debouncer-mini = "=0.7.0"
oneshot = "=0.1.13"
rquickjs = "=0.6.2"
serde = { version = "=1.0.229", features = ["derive"] }
serde_json = "=1.0.151"
serde_yaml = "=0.9.34"
sha = "=1.0.3"
swc_atoms = "=10.0.0"
swc_bundler = "=57.0.0"
swc_common = "=26.0.0"
swc_ecma_ast = "=29.0.2"
swc_ecma_codegen = "=32.0.3"
swc_ecma_loader = "=27.0.0"
swc_ecma_parser = "=46.0.0"
swc_ecma_transforms_base = "*"
swc_ecma_transforms_typescript = "*"
tokio = { version = "=1.53.2", features = ["full"] }
tokio-stream = "=0.1.19"
tracing = "=0.1.44"
tracing-subscriber = "=0.3.23"
ureq = "=2.12.1"
url = "=2.5.8"
