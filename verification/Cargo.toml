[package]
name = "breach_lookup"
version = "0.1.0"
edition = "2021"
publish = false

[dependencies]
sha1 = "*"
reqwest = { version = "*", features = ["brotli", "gzip"] }
tokio = { version = "*", features = ["macros", "rt-multi-thread"] }
structopt = "*"
serde_json = "*"
bitwarden-data = "*"
haveibeenrusted = "*"
