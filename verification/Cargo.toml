[package]
name = "txt_templ_parser"
version = "0.1.0"
edition = "2021"
publish = false

[dependencies]
unic-locale = "*"
serde = { version = "*", features = ["derive"] }
serde_json = "*"
