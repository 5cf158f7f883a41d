[package]
name = "vscode-mcshader"
version = "0.1.0"
edition = "2021"
publish = false

[dependencies]
tree-sitter = "=0.27.1"
tree-sitter-glsl = "=0.2.0"
rand = "=0.9.5"
tower-lsp = "=0.20.0"
tokio = { version = "=1.54.1", features = ["rt-multi-thread", "macros", "io-std", "sync"] }
serde_json = "=1.0.154"
hashbrown = "=0.17.1"
regex = "=1.13.1"
lazy_static = "=1.5.1"
log = "=0.4.35"
slog = "=2.8.2"
slog-term = "=2.9.2"
slog-scope = "=4.4.1"
slog-scope-futures = "=0.1.1"
slog-atomic = "=3.1.0"
slog-stdlog = "=4.1.1"
gl = "=0.14.0"
glutin = "=0.29.1"
