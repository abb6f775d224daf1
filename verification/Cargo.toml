[package]
name = "tween_engine"
version = "0.1.0"
edition = "2021"
publish = false

[dependencies]
dioxus-core = "0.5"
dioxus-hooks = "0.5"
dioxus-signals = "0.5"
skia-safe = "*"
tokio = { version = "1", default-features = false, features = ["sync"] }

[dev-dependencies]
easer = "0.3"
