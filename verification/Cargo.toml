[package]
name = "mdbook_svgdx"
version = "0.1.0"
edition = "2021"
publish = false

[dependencies]
mdbook = { version = "=0.4.52", default-features = false }
pulldown-cmark = "=0.13.4"
pulldown-cmark-to-cmark = "=23.0.0"
svgdx = { version = "=0.33.1", default-features = false }
toml = "=0.5.11"
