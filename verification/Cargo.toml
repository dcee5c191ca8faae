[package]
name = "rust_ui_core"
version = "0.1.0"
edition = "2021"
publish = false

[dependencies]
clone_dyn = "=0.66.1"
tuplex = "=0.1.2"
