[package]
name = "poseidon_tweak"
version = "0.1.0"
edition = "2021"
publish = false

[dependencies]
p3-field = "=0.4.3"
p3-koala-bear = "=0.4.3"
p3-symmetric = "=0.4.3"
rand = "=0.9.5"
rayon = "=1.12.0"

[dev-dependencies]
num-bigint = "=0.4.8"
