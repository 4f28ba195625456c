[package]
name = "sf_plugin_template"
version = "0.1.0"
edition = "2021"
publish = false

[dependencies]
bevy = { version = "0.15", default-features = false }
dyn-clone = "1"
