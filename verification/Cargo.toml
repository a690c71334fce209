[package]
name = "wfc_core"
version = "0.1.0"
edition = "2021"
publish = false

[dependencies]
hibitset = "*"
rand = { version = "0.7", features = ["small_rng"] }
rand_distr = "0.2"
dot_vox = "4"
structopt = "0.3"
ctrlc = "*"
indicatif = "*"
