[package]
name = "zip_extract"
version = "0.1.0"
edition = "2021"
publish = false

[dependencies]
zip = { version = "=8.6.0", default-features = false, features = ["deflate", "bzip2"] }
encoding_rs = "=0.8.42"
log = "=0.4.34"
thiserror = "=2.0.21"
