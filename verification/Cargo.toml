[package]
name = "discord_analyzer"
version = "0.1.0"
edition = "2021"
publish = false

[dependencies]
sha2 = "0.10"
regex = "1"
unicode-segmentation = "1"
emojis = "*"
serde_json = "1"
walkdir = "2"
anyhow = "1"
ureq = "3"
