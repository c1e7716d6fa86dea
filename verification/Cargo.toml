[package]
name = "tmpfiles"
version = "0.1.0"
edition = "2021"
publish = false

[dependencies]
btoi = "0.4"
structopt = "0.3"

[dev-dependencies]
nom = "7"
