[package]
name = "colmsg"
version = "4.0.0"
edition = "2021"
publish = false

[dependencies]
ansi_term = "0.12"
chrono = "0.4"
clap = "2.34"
console = "0.15"
dirs = "5"
rayon = "1"
regex = "1"
reqwest = { version = "0.11", features = ["blocking", "json", "gzip"] }
serde = { version = "1", features = ["derive"] }
serde_json = "1"
shell-words = "1"
thiserror = "1"
url = "2"
walkdir = "2"
wild = "2"
