[package]
name = "seasalt"
version = "0.1.1"
edition = "2021"
publish = false

[dependencies]
anyhow = "1"
clap = { version = "4", features = ["derive"] }
dirs = "6"
rusqlite = { version = "0.37", features = ["bundled", "hooks"] }
shlex = "1.3"
