[package]
name = "ratatui_kit_contrib"
version = "0.1.0"
edition = "2021"
publish = false

[dependencies]
crokey = "=1.5.1"
serde = { version = "=1.0.229", features = ["derive"] }
toml = "=1.1.8"
similar = "=2.7.0"
unicode-width = "=0.2.3"
pulldown-cmark = "=0.13.6"
syntect = { version = "=5.3.0", default-features = false, features = ["default-fancy"] }
ratatui-kit = { version = "=0.12.0", features = ["table"] }
ratatui-themes = "=0.3.0"
