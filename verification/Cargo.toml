[package]
name = "git-viz"
version = "0.1.0"
edition = "2021"
publish = false

[dependencies]
crossterm = "*"
git2 = { version = "*", default-features = false }
ratatui = "*"
unicode-width = "*"
