[package]
name = "jars"
version = "0.1.0"
edition = "2021"
publish = false

[dependencies]
cafebabe = "=0.5.0"
paste = "=1.0.15"
thiserror = "=1.0.69"
zip = { version = "=0.6.6", default-features = false, features = ["deflate"] }
