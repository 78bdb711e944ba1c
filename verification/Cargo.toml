[package]
name = "attractor"
version = "0.1.0"
edition = "2021"
publish = false

[dependencies]
serde_json = "*"
serde = { version = "*", features = ["derive"] }
chrono = "*"
git2 = { version = "*", default-features = false }
reqwest = { version = "*", default-features = false, features = ["json"] }
tokio = { version = "*", features = ["rt", "rt-multi-thread", "sync", "process", "macros", "time"] }
uuid = { version = "*", features = ["v4"] }
libc = "*"
dirs = "*"
