[package]
name = "badge_designer"
version = "0.1.0"
edition = "2021"
publish = false

[dependencies]
dioxus = { version = "*", features = ["web"] }
web-sys = { version = "*", features = ["Window", "Storage"] }
