[package]
name = "singlepass_machine"
version = "0.1.0"
edition = "2021"
publish = false

[dependencies]
smallvec = "1"
wasmer-compiler = { version = "2", default-features = false, features = ["std", "translator"] }
