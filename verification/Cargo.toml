[package]
name = "mdbook_fluent"
version = "0.1.0"
edition = "2021"
publish = false

[dependencies]
fluent = "=0.17.0"
intl-memoizer = "=0.5.3"
semver = "=1.0.28"
mdbook = { version = "=0.4.52", default-features = false }
clap = "=2.34.0"
serde_json = "=1.0.154"
