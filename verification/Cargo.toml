[package]
name = "filesys"
version = "0.1.0"
edition = "2021"
publish = false

[dependencies]
argon2 = "0.5"
rand = "=0.8.5"
serde = { version = "1", features = ["derive"] }
serde_json = "1"
bincode = "1"
anyhow = "1"
rocket = { version = "0.5", features = ["json", "secrets"] }
reqwest = { version = "*", default-features = false, features = ["json", "cookies"] }
tokio = { version = "1", features = ["macros", "rt-multi-thread"] }
structopt = "0.3"
rpassword = "*"
rustyline = "*"
shellwords = "*"
