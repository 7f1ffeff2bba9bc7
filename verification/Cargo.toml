[package]
name = "emeraldian"
version = "0.1.0"
edition = "2021"
publish = false

[dependencies]
unicode-bidi = "0.3"
unicode-width = "0.2"
crossterm = "0.28"
ratatui = { version = "0.29", default-features = false, features = ["crossterm"] }
