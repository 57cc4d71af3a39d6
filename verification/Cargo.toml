[package]
name = "bitcoin_circle_stark"
version = "0.1.0"
edition = "2021"
publish = false

[dependencies]
bitcoin = "=0.32.102"

[dev-dependencies]
rand = "=0.8.8"
rand_chacha = "=0.3.1"
