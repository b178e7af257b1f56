[package]
name = "pagecache"
version = "0.1.0"
edition = "2021"
publish = false

[dependencies]
anyhow = "*"
psl = "*"
reqwest = { version = "*", default-features = false, features = ["socks"] }
tokio = { version = "*", features = ["macros", "rt-multi-thread"] }
