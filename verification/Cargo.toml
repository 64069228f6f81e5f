[package]
name = "recursion-discharge"
version = "0.1.0"
edition = "2021"
publish = false

[dependencies]
anyhow = "1"
bip39 = "2"
bitcoin = "0.32"
clap = { version = "4", features = ["derive"] }
hex = "0.4"
rand = "*"
ripemd = "*"
sha2 = "*"
thiserror = "2"
