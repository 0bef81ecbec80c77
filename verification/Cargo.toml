[package]
name = "k8sfs"
version = "0.1.0"
edition = "2021"
publish = false

[dependencies]
clap = "4"
env_logger = "0.11"
fuser = { version = "0.14", default-features = false }
libc = "0.2"
log = "0.4"
serde_json = "1"
