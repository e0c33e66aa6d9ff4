[package]
name = "gomamayo"
version = "0.1.0"
edition = "2021"
publish = false

[dependencies]
itertools = "0.13"
lindera-core = "0.32"
lindera-dictionary = { version = "0.32", features = ["unidic"] }
lindera-tokenizer = { version = "0.32", features = ["unidic"] }
tempfile = "3"
