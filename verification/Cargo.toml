[package]
name = "pkg_history"
version = "0.1.0"
edition = "2021"
publish = false

[dependencies]
regex = "1"
time = { version = "0.3", features = ["parsing", "macros"] }
rsbash = "*"

[dev-dependencies]
pretty_assertions = "1"
