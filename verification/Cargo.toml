[package]
name = "merkle_tree"
version = "0.1.0"
edition = "2021"
publish = false

[dependencies]
csv = "*"
ethers = { version = "*", default-features = false }
halo2_gadgets = "*"
halo2_proofs = "*"
halo2curves = "*"
num-bigint = "*"
rayon = "*"
