[package]
name = "generator"
version = "0.1.0"
edition = "2021"
publish = false

[dependencies]
zstd = "0.13"
base64 = "0.22"
unicode-segmentation = "1"
serde_json = "1"
thiserror = "2"
tokio = { version = "1", default-features = false, features = ["rt-multi-thread", "macros", "fs", "sync"] }
redis = { version = "0.32", default-features = false, features = ["aio", "tokio-comp"] }
async-nats = "0.42"
futures-util = "0.3"
async-channel = "2"
prost = "0.14"
tracing = "0.1"
tracing-subscriber = { version = "0.3", default-features = false, features = ["fmt", "env-filter"] }
steel-core = "0.7"
vello = "0.6"
parley = "0.6"
taffy = "0.9"
image = { version = "0.25", default-features = false, features = ["png", "webp"] }
