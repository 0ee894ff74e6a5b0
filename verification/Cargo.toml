[package]
name = "ariadne_graph"
version = "0.1.0"
edition = "2021"
publish = false

[dependencies]
tree-sitter = "=0.24.7"
tree-sitter-typescript = "=0.23.2"
tree-sitter-rust = "=0.23.3"
tree-sitter-go = "=0.23.4"
tree-sitter-python = "=0.23.6"
tree-sitter-java = "=0.23.5"
tree-sitter-c-sharp = "=0.23.1"
tree-sitter-json = "=0.24.8"
tree-sitter-yaml = "=0.7.2"
tree-sitter-md = "=0.3.2"
serde = { version = "=1.0.229", features = ["derive"] }
serde_json = "=1.0.154"
regex = "=1.13.1"
roxmltree = "=0.20.0"
ignore = "=0.4.34"
rayon = "=1.12.0"
time = { version = "=0.3.55", features = ["formatting"] }
