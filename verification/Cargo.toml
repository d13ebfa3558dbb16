[package]
name = "halo2_franchise"
version = "0.1.0"
edition = "2021"
publish = false

[dependencies]
ff = "*"
halo2_gadgets = "*"
halo2_proofs = "*"
pasta_curves = "*"
