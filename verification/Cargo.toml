[package]
name = "tpt_formal_lab"
version = "0.1.0"
edition = "2021"
publish = false

[dependencies]
num-bigint = "0.4"
num-integer = "0.1"
num-traits = "0.2"
proc-macro2 = "1"
quote = "1"
syn = { version = "2", features = ["full"] }
