[package]
name = "bintray_resource"
version = "0.1.0"
edition = "2021"
publish = false

[dependencies]
clap = "2"
env_logger = "0.4"
glob = "0.2"
log = "0.3"
regex = "1"
serde = "1"
serde_derive = "1"
serde_json = "1"
