[package]
name = "mixtor"
version = "0.1.0"
edition = "2021"
publish = false

[dependencies]
blake3 = "1"
chacha20poly1305 = "0.10"
clap = { version = "4", features = ["derive", "env"] }
curve25519-elligator2 = { version = "=0.1.0-alpha.2", features = ["elligator2"] }
getrandom = "0.2"
rand = "0.8"
rand_chacha = "0.3"
rand_distr = "0.4"
subtle = "2"
tokio = { version = "1", features = ["full"] }
x25519-dalek = { version = "2", features = ["static_secrets"] }
zeroize = "1"
