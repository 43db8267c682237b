[package]
name = "typofix"
version = "0.1.0"
edition = "2021"
publish = false

[dependencies]
fancy-regex = { version = "=0.20.0", default-features = false, features = ["perf", "std", "unicode"] }
log = "=0.4.34"
rayon = "=1.12.0"
