[package]
name = "reformat"
version = "0.1.0"
edition = "2021"
publish = false

[dependencies]
aho-corasick = "1"
anyhow = "1"
chrono = "0.4"
clap = { version = "4", features = ["derive"] }
clap_complete = "4"
clap_mangen = "0.2"
ec4rs = "1"
glob = "0.3"
ignore = "0.4"
log = "0.4"
logging_timer = "1"
regex = "1"
serde = { version = "1", features = ["derive"] }
serde_json = "1"
similar = "2"
simplelog = "0.12"
walkdir = "2"
