[package]
name = "bettertui_engine"
version = "0.1.0"
edition = "2021"
publish = false

[dependencies]
base64 = "=0.23.1"
parking_lot = "0.12"
taffy = "=0.7.7"
thiserror = "2"
tracing = "0.1"
tracing-subscriber = { version = "0.3", features = ["env-filter"] }
unicode-segmentation = "=1.13.3"
unicode-width = "=0.2.3"
