[package]
name = "chronos"
version = "0.1.0"
edition = "2021"
publish = false

[dependencies]
chacha20poly1305 = "=0.10.1"
hkdf = "=0.12.4"
sha2 = "=0.10.9"
ed25519-dalek = "=2.2.0"
x25519-dalek = { version = "=2.0.1", features = ["static_secrets"] }
ml-kem = { version = "=0.3.4", features = ["getrandom"] }
subtle = "=2.6.1"
getrandom = "=0.2.17"
libc = "=0.2.191"
