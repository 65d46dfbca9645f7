[package]
name = "mpz_garble"
version = "0.1.0"
edition = "2021"
publish = false

[dependencies]
blake3 = "=1.8.7"
hybrid-array = "=0.4.15"
itybity = "=0.3.3"
rand = "=0.9.5"
rand_chacha = "=0.9.0"
rayon = "=1.12.0"
serde = { version = "=1.0.229", features = ["derive"] }
serde_arrays = "=0.2.0"
thiserror = "=1.0.69"
tokio = { version = "=1.54.1", features = ["sync"] }

[dev-dependencies]
aes = "=0.9.4"
