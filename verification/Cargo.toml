[package]
name = "assert2"
version = "0.1.0"
edition = "2021"
publish = false

[dependencies]
diff = "*"
unicode-width = "*"
is-terminal = "*"
term_size = "*"
