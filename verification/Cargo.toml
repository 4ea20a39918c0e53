[package]
name = "stories"
version = "0.1.0"
edition = "2021"
publish = false

[dependencies]
anyhow = "*"
atty = "*"
cacache = { version = "*", default-features = false, features = ["tokio-runtime", "mmap"] }
chrono = { version = "*", default-features = false, features = ["std", "clock"] }
clap = { version = "*", features = ["derive"] }
colored = "*"
reqwest = { version = "0.11", default-features = false, features = ["json", "rustls-tls"] }
serde = { version = "*", features = ["derive"] }
serde_json = "*"
sha256 = "*"
slugify = "*"
tabled = "*"
terminal-link = "*"
terminal_size = "*"
tokio = { version = "*", features = ["macros", "rt-multi-thread"] }
