[package]
name = "shortcut_prune"
version = "0.1.0"
edition = "2021"
publish = false

[dependencies]
anyhow = "=1.0.104"
steamlocate = "=2.1.1"

[dev-dependencies]
steam_shortcuts_util = "=1.1.9"
