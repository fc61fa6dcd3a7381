[package]
name = "ormgen"
version = "0.1.0"
edition = "2021"
publish = false

[dependencies]
tera = "*"
postgres = "*"
clap = "*"
serde = "*"
