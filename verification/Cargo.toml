[package]
name = "ufc"
version = "0.1.0"
edition = "2021"
publish = false

[dependencies]
serde_json = "1"
serde_yaml = "0.9"
toml = "0.8"
csv = "1"
pulldown-cmark = { version = "0.12", default-features = false, features = ["html"] }
image = { version = "0.25", default-features = false, features = ["png", "jpeg", "gif", "bmp", "webp", "tiff"] }
lopdf = "0.34"
pdf-extract = "0.7"
printpdf = "0.5"
tempfile = "3"
thiserror = "1"
which = "6"
clap = { version = "4", features = ["derive"] }
env_logger = "0.11"
