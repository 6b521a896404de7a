[package]
name = "taiko_untitled"
version = "0.1.0"
edition = "2021"
publish = false

[dependencies]
chardetng = "0.1.17"
encoding_rs = "0.8"
ordered-float = "*"
itertools = "*"
serde = { version = "1", features = ["derive"] }
serde_json = "1"
config = "0.11"
