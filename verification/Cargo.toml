[package]
name = "signal_session"
version = "0.1.0"
edition = "2021"
publish = false

[dependencies]
aes-gcm-siv = "=0.11.1"
curve25519-dalek = "=4.1.3"
hmac = "=0.12.1"
rand = "=0.8.8"
sha2 = "=0.10.9"
x25519-dalek = "=2.0.1"
