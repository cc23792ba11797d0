[package]
name = "omarchy-zed-theme"
version = "0.1.0"
edition = "2021"
publish = false

[dependencies]
fs2 = "=0.4.3"
jsonc-parser = { version = "=0.29.0", features = ["cst", "serde"] }
libc = "=0.2.191"
rayon = "=1.12.0"
serde_json = "=1.0.154"
