[package]
name = "openit"
version = "0.1.0"
edition = "2021"
publish = false

[dependencies]
anyhow = "1"
clap = { version = "4", features = ["derive"] }
clap_complete = { version = "4", features = ["unstable-dynamic"] }
dirs = "*"
env_logger = "*"
itertools = "*"
log = "0.4"
mime = "0.3"
mime_guess = "2"
nix = { version = "*", features = ["process"] }
regex = "1"
serde = { version = "1", features = ["derive"] }
serde_json = "1"
shell-words = "1"
toml = "*"
url = "2"
walkdir = "2"
which = "*"
wildmatch = "2"

[dev-dependencies]
tempfile = "3"
