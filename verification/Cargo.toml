[package]
name = "traversal-core"
version = "0.1.0"
edition = "2021"
publish = false

[dependencies]
anyhow = "*"
clap = { version = "*", features = ["derive"] }
grep = "*"
ignore = "*"
log = "*"
lsp-server = "*"
lsp-types = "*"
serde = "*"
serde_json = "*"
tracing = "*"
tracing-subscriber = { version = "*", features = ["env-filter"] }

[dev-dependencies]
regex = "*"
