[package]
name = "balancer"
version = "0.1.0"
edition = "2021"
publish = false

[dependencies]
mpi = "0.6"
rayon = "1"
