[package]
name = "scrolling_layout"
version = "0.1.0"
edition = "2021"
publish = false

[dependencies]
anyhow = "1"
ordered-float = "*"
pango = "*"
pangocairo = "*"
smithay = { version = "*", default-features = false }
