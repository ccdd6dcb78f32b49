[package]
name = "sloposcope"
version = "0.1.0"
edition = "2021"
publish = false

[dependencies]
tree-sitter = "0.25"
streaming-iterator = "0.1"
tree-sitter-elixir = "*"
tree-sitter-ruby = "*"
tree-sitter-javascript = "*"
tree-sitter-python = "*"
tree-sitter-rust = "*"
tree-sitter-go = "*"
tree-sitter-java = "*"
tree-sitter-cpp = "*"
tree-sitter-php = "*"
tree-sitter-c-sharp = "*"
tree-sitter-clojure = "*"
tree-sitter-kotlin-ng = "*"
serde = { version = "1", features = ["derive"] }
serde_json = "1"
walkdir = "2"
notify = "*"
parking_lot = "0.12"
