[package]
name = "srp_core"
version = "0.1.0"
edition = "2021"
publish = false

[dependencies]
blake3 = "=1.8.7"
fastcdc = "=5.0.0"
lasso = { version = "=0.7.3", features = ["multi-threaded"] }
serde = { version = "=1.0.229", features = ["derive"] }
serde_json = "=1.0.151"
streaming-iterator = "=0.1.9"
thiserror = "=2.0.21"
tree-sitter = "=0.27.0"
tree-sitter-c = "=0.24.2"
tree-sitter-c-sharp = "=0.23.5"
tree-sitter-cpp = "=0.23.4"
tree-sitter-css = "=0.25.0"
tree-sitter-go = "=0.25.0"
tree-sitter-html = "=0.23.2"
tree-sitter-java = "=0.23.5"
tree-sitter-javascript = "=0.25.0"
tree-sitter-json = "=0.24.8"
tree-sitter-md = "=0.5.3"
tree-sitter-php = "=0.25.1"
tree-sitter-python = "=0.25.0"
tree-sitter-ruby = "=0.23.1"
tree-sitter-rust = "=0.24.2"
tree-sitter-typescript = "=0.23.2"
