[package]
name = "melwallet"
version = "0.1.0"
edition = "2021"
publish = false

[dependencies]
melstructs = "*"
melvm = "*"
tmelcrypt = "*"
bytes = "*"
serde = { version = "*", features = ["derive"] }
