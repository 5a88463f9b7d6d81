[package]
name = "rustdex"
version = "0.4.1"
edition = "2021"
publish = false

[dependencies]
regex = "*"
tree-sitter = "*"
tree-sitter-python = "*"
tree-sitter-javascript = "*"
tree-sitter-typescript = "*"
tree-sitter-go = "*"
tree-sitter-rust = "*"
tree-sitter-java = "*"
tree-sitter-php = "*"
tree-sitter-c-sharp = "*"
tree-sitter-c = "*"
tree-sitter-cpp = "*"
tree-sitter-elixir = "*"
tree-sitter-ruby = "*"
tree-sitter-vue-next = "*"
sha2 = "*"
hex = "*"
anyhow = "*"
clap = { version = "*", features = ["derive"] }
serde = { version = "*", features = ["derive"] }
serde_json = "*"
rusqlite = { version = "*", features = ["bundled"] }
ignore = "*"
notify = "*"
chrono = "*"
candle-core = "*"
candle-nn = "*"
candle-transformers = "*"
tokenizers = { version = "*", default-features = false, features = ["onig"] }
hf-hub = { version = "0.4.3", default-features = false, features = ["ureq"] }
