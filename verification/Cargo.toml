[package]
name = "mdbook_modern_dot"
version = "0.1.0"
edition = "2021"
publish = false

[dependencies]
mdbook-markdown = "=0.5.4"
mdbook-preprocessor = "=0.5.4"
pulldown-cmark-to-cmark = "=21.1.0"
serde = { version = "=1.0.229", features = ["derive"] }
serde_json = "=1.0.154"
toml = "=1.1.8"
tokio = { version = "=1.54.1", features = ["rt", "process", "io-util", "macros", "time"] }
futures = "=0.3.34"
clap = { version = "=4.6.7", features = ["derive"] }
