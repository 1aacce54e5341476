[package]
name = "apk-proofs"
version = "0.1.0"
edition = "2021"
publish = false

[dependencies]
ark-ff = { version = "=0.6.0", features = ["std"] }
ark-ec = { version = "=0.6.0", features = ["std"] }
ark-poly = { version = "=0.6.0", features = ["std"] }
ark-serialize = { version = "=0.6.0", features = ["derive", "std"] }
ark-std = "=0.6.0"
ark-bls12-377 = "=0.6.0"
ark-bw6-761 = "=0.6.0"
blake2 = "=0.9.2"
w3f-pcs = { version = "=0.0.7", features = ["std"] }
merlin = "=3.0.0"
rand = "=0.8.8"
