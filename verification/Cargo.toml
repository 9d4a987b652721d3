[package]
name = "draca"
version = "0.1.0"
edition = "2021"
publish = false

[dependencies]
strfmt = "*"
rustyline = { version = "*", features = ["derive"] }
ansi_term = "*"
lexpr = "*"
