[package]
name = "stgit"
version = "0.1.0"
edition = "2021"
publish = false

[dependencies]
anyhow = "=1.0.104"
bstr = "=1.13.1"
bzip2 = "=0.6.1"
chrono = { version = "=0.4.45", default-features = false, features = ["std"] }
clap = "=4.6.7"
curl = "=0.4.51"
flate2 = "=1.1.10"
git2 = { version = "=0.21.0", default-features = false }
gix = { version = "=0.90.0", default-features = false, features = ["sha1"] }
is-terminal = "=0.4.17"
serde = { version = "=1.0.229", features = ["derive"] }
serde_json = "=1.0.154"
tar = "=0.4.46"
tempfile = "=3.27.0"
termcolor = "=1.4.1"
