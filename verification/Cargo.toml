[package]
name = "ostree-ext"
version = "0.1.0"
edition = "2021"
publish = false

[dependencies]
anyhow = "1"
async-compression = { version = "0.4", features = ["gzip", "tokio"] }
camino = "1"
cap-std-ext = "*"
containers-image-proxy = "0.5"
fn-error-context = "0.2"
futures-util = "0.3"
oci-spec = "0.5"
once_cell = "1"
ostree = "0.17"
pin-project = "1"
rustix = { version = "*", features = ["fs", "process"] }
tar = "0.4"
tempfile = "3"
tokio = { version = "1", features = ["full"] }
tokio-util = { version = "0.7", features = ["io", "io-util"] }
tracing = "0.1"
