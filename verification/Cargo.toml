[package]
name = "sitegen"
version = "0.1.0"
edition = "2021"
publish = false

[dependencies]
anyhow = "1"
base64 = "0.22"
glob = "0.3"
gray_matter = "*"
imagesize = "*"
kuchikiki = "*"
markdown = "*"
rayon = "1"
regex = "1"
serde = { version = "1", features = ["derive"] }
serde_json = "1"
sha2 = "0.10"
syntect = { version = "5", default-features = false, features = ["default-fancy"] }
tera = { version = "1", default-features = false }
toml = "*"
walkdir = "2"
