[package]
name = "mdbook_drawio"
version = "0.1.0"
edition = "2021"
publish = false

[dependencies]
mdbook = { version = "=0.4.52", default-features = false }
log = "=0.4.34"
