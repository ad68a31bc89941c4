[package]
name = "infinityper"
version = "0.1.0"
edition = "2021"
publish = false

[dependencies]
calm_io = "0.1"
colorful = "0.2"
crossbeam = "0.8"
ctrlc = "3"
structopt = "0.3"
