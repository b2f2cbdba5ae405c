[package]
name = "smart_release"
version = "0.1.0"
edition = "2021"
publish = false

[dependencies]
semver = "=1.0.28"
git-conventional = "=0.12.9"
gix-object = { version = "=0.65.0", features = ["sha1"] }
unicode-properties = "=0.1.4"
log = "=0.4.34"
anyhow = "=1.0.104"
cargo_metadata = "=0.23.1"
