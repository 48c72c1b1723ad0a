[package]
name = "logix"
version = "0.1.0"
edition = "2021"
publish = false

[dependencies]
walkdir = "*"
logix-vfs = "*"
logix-type = "*"
curl = "*"
semver = "*"
serde_json = "*"
jiff = "*"
home = "*"
clap = { version = "*", features = ["derive"] }
flexi_logger = "*"
log = "*"
owo-colors = "*"
prettydiff = "*"

[dev-dependencies]
tempfile = "*"
