[package]
name = "mica"
version = "0.1.0"
edition = "2021"
publish = false

[dependencies]
alacritty_terminal = "*"
libc = "0.2"
serde = { version = "1", features = ["derive"] }
toml = "*"
objc2 = "*"
objc2-foundation = "*"
objc2-core-foundation = "*"
objc2-core-graphics = "*"
objc2-core-text = "*"
objc2-metal = "*"
