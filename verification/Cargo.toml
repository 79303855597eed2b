[package]
name = "groupd"
version = "0.1.0"
edition = "2021"
publish = false

[dependencies]
sequoia-openpgp = { version = "=2.4.1", default-features = false, features = ["crypto-rust", "allow-experimental-crypto", "allow-variable-time-crypto"] }
serde_json = "1"
redis = "0.27"
anyhow = "1"
