[package]
name = "randstream"
version = "0.1.0"
edition = "2021"
publish = false

[dependencies]
anyhow = "*"
clap = { version = "*", features = ["derive"] }
clap-verbosity-flag = "*"
crc32fast = "*"
human-units = "*"
indicatif = "*"
log = "*"
nix = { version = "*", features = ["ioctl", "fs"] }
num_cpus = "*"
ocli = "*"
parse-size = "*"
rand = "*"
rand_pcg = "*"
supports-unicode = "*"
