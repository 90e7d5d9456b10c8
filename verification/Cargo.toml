[package]
name = "nve"
version = "0.1.0"
edition = "2021"
publish = false

[dependencies]
tar = "*"
xz2 = "*"
zip = { version = "*", default-features = false, features = ["deflate"] }
semver = "*"
reqwest = { version = "*", default-features = false, features = ["json"] }
tokio = { version = "*", features = ["macros", "rt-multi-thread"] }
clap = { version = "*", features = ["derive"] }
dirs = "*"
serde = { version = "*", features = ["derive"] }
serde_json = "*"
async-trait = "*"
thiserror = "*"
walkdir = "*"
