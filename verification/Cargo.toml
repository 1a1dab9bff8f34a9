[package]
name = "corescribe"
version = "0.1.0"
edition = "2021"
publish = false

[dependencies]
serde_json = "=1.0.154"
hound = "=3.5.1"
ureq = "=2.12.1"
zip = { version = "=0.6.6", default-features = false, features = ["deflate"] }
eframe = { version = "0.29", default-features = false, features = ["default_fonts", "glow", "x11"] }
rfd = "0.15"
