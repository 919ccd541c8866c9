[package]
name = "semantic_index"
version = "0.1.0"
edition = "2021"
publish = false

[dependencies]
tree-sitter = "*"
tree-sitter-rust = "*"
tree-sitter-javascript = "*"
tree-sitter-python = "*"
tree-sitter-go = "*"
streaming-iterator = "*"
tokenizers = "*"
qdrant-client = "*"
candle-core = "*"
candle-nn = "*"
candle-transformers = "*"
serde = { version = "*", features = ["derive"] }
serde_json = "*"
anyhow = "*"
async-trait = "*"
futures = "*"
parking_lot = "*"
dirs = "*"
schemars = "*"
