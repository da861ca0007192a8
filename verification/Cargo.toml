[package]
name = "typastry"
version = "0.1.0"
edition = "2021"
publish = false

[dependencies]
typst-syntax = "=0.15.1"
typstyle-core = "=0.15.2"
typst = "=0.15.1"
typst-ide = "=0.15.1"
typst-layout = "=0.15.1"
serde = { version = "=1.0.229", features = ["derive"] }
serde_json = "=1.0.154"
docx-rs = "*"
lsp-types = "0.97"
