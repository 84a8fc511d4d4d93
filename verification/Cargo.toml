[package]
name = "heaven"
version = "0.1.0"
edition = "2021"
publish = false

[dependencies]
itoa = "1"
mio = { version = "1", features = ["os-poll", "net"] }
crossbeam-channel = "0.5"
ctrlc = "3"
clap = { version = "4", features = ["derive"] }
jemallocator = "0.5"
rkyv = "0.8"
