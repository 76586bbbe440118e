[package]
name = "typre"
version = "0.1.0"
edition = "2021"
publish = false

[dependencies]
unicode-width = "*"
termion = "1"
toml = "*"
rusqlite = { version = "*", features = ["bundled"] }
bincode = "2"
pico-args = "*"
