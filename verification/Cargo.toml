[package]
name = "am4"
version = "0.1.0"
edition = "2021"
publish = false

[dependencies]
jaro_winkler = "*"
rkyv = { version = "0.7", features = ["validation"] }
serde = { version = "*", features = ["derive"] }
thiserror = "*"
derive_more = { version = "*", features = ["add", "into", "display"] }
