[package]
name = "ade"
version = "0.1.0"
edition = "2021"
publish = false

[dependencies]
chrono = "=0.4.45"
serde = { version = "=1.0.229", features = ["derive"] }
serde_json = "=1.0.154"
git2 = { version = "=0.20.4", default-features = false }
image = { version = "=0.25.10", default-features = false, features = ["png", "jpeg", "gif", "bmp", "ico"] }
libc = "=0.2.191"
alacritty_terminal = "0.25"
tree-sitter-highlight = "=0.27.1"
tree-sitter-rust = "=0.24.2"
tree-sitter-javascript = "=0.25.0"
tree-sitter-typescript = "=0.23.2"
tree-sitter-python = "=0.25.0"
tree-sitter-go = "=0.25.0"
tree-sitter-c = "=0.24.2"
tree-sitter-cpp = "=0.23.4"
tree-sitter-java = "=0.23.5"
tree-sitter-ruby = "=0.23.1"
tree-sitter-bash = "=0.25.1"
tree-sitter-html = "=0.23.2"
tree-sitter-css = "=0.25.0"
tree-sitter-json = "=0.24.8"
tree-sitter-yaml = "=0.7.2"
tree-sitter-md = "=0.5.4"
