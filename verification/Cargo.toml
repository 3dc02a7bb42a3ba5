[package]
name = "mpi_two_sided"
version = "0.1.0"
edition = "2021"
publish = false

[dependencies]
bytemuck = "1"
