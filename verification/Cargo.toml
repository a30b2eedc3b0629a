[package]
name = "runfile_executor"
version = "0.1.0"
edition = "2021"
publish = false

[dependencies]
base64 = "0.22"
regex = "1"
sha2 = "0.10"
md-5 = "0.10"
hex = "0.4"
serde_json = "1"
globset = "0.4"
shlex = "1"
thiserror = "2"

[dev-dependencies]
tempfile = "3"
