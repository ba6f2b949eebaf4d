[package]
name = "restruct"
version = "0.1.0"
edition = "2021"
publish = false

[dependencies]
heck = "0.4"
itertools = "0.10"
syn = { version = "2", features = ["full"] }
proc-macro2 = { version = "1", features = ["span-locations"] }
structopt = "0.3"
anyhow = "1"
