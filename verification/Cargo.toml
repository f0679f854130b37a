[package]
name = "iai_callgrind_runner"
version = "0.1.0"
edition = "2021"
publish = false

[dependencies]
regex = "1"
indexmap = "2"
shlex = "1"
sanitize-filename = "0.5"
version-compare = "0.2"
serde = { version = "1", features = ["derive"] }
serde_json = "1"
bincode = "1"
colored = "2"
inferno = { version = "0.11", default-features = false }
which = "*"
tempfile = "3"
log = "0.4"
env_logger = "*"
clap = { version = "4", features = ["derive", "env"] }
