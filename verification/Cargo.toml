[package]
name = "rustible"
version = "0.1.0"
edition = "2021"
publish = false

[dependencies]
regex = "=1.13.1"
sha2 = "=0.10.9"
base64 = "=0.22.1"
shell-words = "1"
serde_json = "1"
serde_yaml = "0.9"
