[package]
name = "memster"
version = "0.1.0"
edition = "2021"
publish = false

[dependencies]
anyhow = "=1.0.104"
bytes = "=1.12.1"
config = { version = "=0.11.0", default-features = false, features = ["yaml"] }
hyper = { version = "=0.14.32", features = ["full"] }
mimalloc = { version = "=0.1.52", default-features = false }
num_cpus = "=1.17.0"
parking_lot = "=0.11.2"
parse-size = "=1.1.0"
serde = { version = "=1.0.229", features = ["derive"] }
serde-aux = { version = "=3.1.0", default-features = false }
tokio = { version = "=1.54.1", features = ["full"] }
tower = { version = "=0.4.13", features = ["timeout", "make", "util"] }
tower-http = { version = "=0.1.3", features = ["add-extension", "compression-gzip", "compression-deflate", "compression-br", "sensitive-headers", "set-header", "trace"] }
tracing = "=0.1.44"
tracing-subscriber = { version = "=0.3.23", features = ["env-filter", "json"] }
warp = { version = "=0.3.7", default-features = false }

[dev-dependencies]
tokio = { version = "=1.54.1", features = ["full", "test-util"] }
