[package]
name = "jolt_witness"
version = "0.1.0"
edition = "2021"
publish = false

[dependencies]
itertools = "0.14"
rayon = "1"
syn = { version = "2", features = ["full"] }
proc-macro2 = "1"
quote = "1"
