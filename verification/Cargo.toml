[package]
name = "limbo_sync"
version = "0.1.0"
edition = "2021"
publish = false

[dependencies]
hyprland = "*"
niri-ipc = "*"
serde_json = "*"
tokio = { version = "*", features = ["net", "io-util", "sync", "rt", "macros", "rt-multi-thread"] }
