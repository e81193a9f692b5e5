[package]
name = "predict"
version = "0.1.0"
edition = "2021"
publish = false

[dependencies]
fst = "0.4"
bincode = "1"
ureq = { version = "2", default-features = false, features = ["json"] }
log = "0.4"
log4rs = "1"
