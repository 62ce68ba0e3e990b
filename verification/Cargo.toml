[package]
name = "skidmarks"
version = "0.1.0"
edition = "2021"
publish = false

[dependencies]
ansi_term = "=0.12.1"
chrono = { version = "=0.4.45", features = ["serde"] }
clap = { version = "=4.6.7", features = ["derive"] }
console = "=0.16.6"
dirs = "=7.0.0"
ron = "=0.12.2"
serde = { version = "=1.0.229", features = ["derive"] }
tabled = "=0.22.0"
term_size = "=0.3.2"
textwrap = "=0.16.4"
uuid = { version = "=1.29.0", features = ["v4", "serde"] }
