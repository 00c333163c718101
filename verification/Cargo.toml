[package]
name = "cpp"
version = "0.1.0"
edition = "2021"
publish = false

[dependencies]
unicode-xid = "*"
