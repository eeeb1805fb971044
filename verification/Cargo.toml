[package]
name = "kv"
version = "0.1.0"
edition = "2021"
publish = false

[dependencies]
anyhow = "*"
atty = "*"
base64 = "*"
bat = { version = "*", default-features = false, features = ["regex-fancy"] }
clap = { version = "*", features = ["derive"] }
crossterm = "*"
directories = "*"
flate2 = "*"
headless_chrome = "*"
hex = "*"
image = "*"
pdfium-render = "*"
resvg = "*"
serde = { version = "*", features = ["derive"] }
sha2 = "*"
shell-words = "*"
tempfile = "*"
tiny-skia = "*"
toml = "*"
usvg = "*"
