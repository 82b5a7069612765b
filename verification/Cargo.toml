[package]
name = "seventeen"
version = "0.1.0"
edition = "2021"
publish = false

[dependencies]
termion = "1"
serde = "1"
serde_derive = "1"
serde_json = "1"
xdg = "2"
