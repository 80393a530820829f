[package]
name = "qipi"
version = "0.1.0"
edition = "2021"
publish = false

[dependencies]
anyhow = "1"
clap = { version = "4", features = ["derive"] }
flate2 = "1"
regex = "1"
reqwest = { version = "*", features = ["json"] }
serde = { version = "1", features = ["derive"] }
simple-home-dir = "*"
symlink = "*"
tar = "*"
tokio = { version = "1", features = ["macros", "rt-multi-thread"] }
toml = "*"
