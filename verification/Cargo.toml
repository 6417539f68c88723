[package]
name = "stark_fri"
version = "0.1.0"
edition = "2021"
publish = false

[dependencies]
lambdaworks-math = "*"
lambdaworks-crypto = "*"
