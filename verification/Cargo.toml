[package]
name = "pacquet_package_manager"
version = "0.1.0"
edition = "2021"
publish = false

[dependencies]
node-semver = "=2.2.0"
serde_json = "=1.0.154"
reflink-copy = "=0.1.32"
dashmap = "6"
httpdate = "1"

[dev-dependencies]
