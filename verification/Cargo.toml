[package]
name = "system_executor"
version = "0.1.0"
edition = "2021"
publish = false

[dependencies]
fxhash = "0.2"
hecs = "*"
resources = "*"
