[package]
name = "summer"
version = "0.1.0"
edition = "2021"
publish = false

[dependencies]
ansi_term = "=0.12.1"
atty = "=0.2.14"
colorparse = "3"
dirs = "=4.0.0"
globset = "=0.4.20"
lscolors = "=0.8.1"
memchr = "=2.8.3"
regex = "=1.13.1"
serde = { version = "=1.0.229", features = ["derive"] }
serde_yaml = "=0.8.26"
terminal_size = "=0.1.17"
threadpool = "=1.8.1"
unicode-width = "=0.1.14"
xflags = "=0.2.4"
