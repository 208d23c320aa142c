[package]
name = "extension_listing"
version = "0.1.0"
edition = "2021"
publish = false

[dependencies]
clap = { version = "4", features = ["derive"] }
serde_json = "1"
tracing = "0.1"
mago-analyzer = "*"
mago-linter = "*"
mago-extension = "*"
mago-orchestrator = "*"
mago-php-version = "*"
mago-reporting = "*"
mago-syntax = "*"
