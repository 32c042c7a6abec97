[package]
name = "reda_db"
version = "0.1.0"
edition = "2021"
publish = false

[dependencies]
eyre = "0.6"
log = "0.4"
num-traits = "0.2"
