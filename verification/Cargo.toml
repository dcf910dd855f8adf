[package]
name = "kreuzberg"
version = "4.0.0"
edition = "2021"
publish = false

[dependencies]
regex = "=1.13.1"
snap = "=1.1.2"
serde_yaml_ng = "=0.10.0"
zip = { version = "=9.2.2", default-features = false, features = ["deflate"] }
pulldown-cmark = { version = "=0.13.6", default-features = false }
roxmltree = "=0.21.2"
org = "=0.3.1"
base64 = "=0.22.1"
serde_json = "=1.0.154"
infer = "*"
