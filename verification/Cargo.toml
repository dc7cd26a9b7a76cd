[package]
name = "samefile_finder"
version = "0.1.0"
edition = "2021"
publish = false

[dependencies]
md5 = "0.7"
rusqlite = { version = "0.32", features = ["bundled"] }
eframe = { version = "0.31", default-features = false, features = ["glow", "x11", "default_fonts"] }
rfd = { version = "0.15", default-features = false, features = ["xdg-portal", "tokio"] }
