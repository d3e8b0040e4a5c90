[package]
name = "kk_keymap"
version = "0.1.0"
edition = "2021"
publish = false

[dependencies]
anyhow = "1"
crossterm = { version = "0.25", features = ["event-stream"] }
env_logger = "0.10"
futures-util = "0.3"
log = "0.4"
tokio = { version = "1", features = ["macros", "rt-multi-thread"] }
toml = "0.8"
tui = { version = "0.19", default-features = false, features = ["crossterm"] }
