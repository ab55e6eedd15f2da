[package]
name = "vintage"
version = "0.1.0"
edition = "2021"
publish = false

[dependencies]
pulldown-cmark = { version = "*", default-features = false }
serde = { version = "1", features = ["derive"] }
serde_json = "1"
anyhow = "1"
getrandom = "0.3"
libc = "0.2"
portable-pty = "*"
alacritty_terminal = "*"
