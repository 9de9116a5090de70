[package]
name = "lint_core"
version = "0.1.0"
edition = "2021"
publish = false

[dependencies]
deno_ast = "*"
deno_config = "=0.61.0"
deno_graph = "*"
deno_lint = "=0.84.1"
log = "=0.4.34"
serde = { version = "=1.0.229", features = ["derive"] }
serde_json = "=1.0.151"
