[package]
name = "track"
version = "0.6.0"
edition = "2021"
publish = false

[dependencies]
cranelift-codegen = "=0.133.3"
cranelift-frontend = "=0.133.3"
cranelift-module = "=0.133.3"
cranelift-object = "=0.133.3"
target-lexicon = "0.13"
serde = { version = "=1.0.229", features = ["derive"] }
serde_json = "=1.0.154"
toml = "=1.1.8"
tokio = { version = "=1.54.1", features = ["rt-multi-thread", "macros", "io-std"] }
tower-lsp = "=0.20.0"
