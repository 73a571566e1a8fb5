[package]
name = "coop_fuzz_master"
version = "0.1.0"
edition = "2021"
publish = false

[dependencies]
rand = "*"
zmq = "*"
inotify = "*"
ctrlc = "*"
nix = "*"
getopts = "*"
glob = "*"
log = "*"
pretty_env_logger = "*"
