[package]
name = "cgarena"
version = "0.1.0"
edition = "2021"
publish = false

[dependencies]
rand = "=0.9.5"
itertools = "=0.14.0"
shell-words = "=1.1.1"
anyhow = "=1.0.104"
thiserror = "=2.0.21"
serde = { version = "=1.0.229", features = ["derive"] }
serde_json = "=1.0.154"
skillratings = "=0.29.2"
nalgebra = "=0.35.0"
tokio = { version = "=1.54.1", features = ["full"] }
tokio-util = "=0.7.20"
uuid = { version = "=1.29.0", features = ["v4"] }
chrono = { version = "=0.4.45", features = ["serde"] }
clap = { version = "=4.6.7", features = ["derive"] }
tracing = "=0.1.44"
log = "=0.4.35"
mime_guess = "=2.0.5"
xmltree = { version = "=0.12.0", features = ["attribute-sorted"] }
libc = "=0.2.191"
indoc = "=2.0.8"
async-trait = "=0.1.92"
sqlx = { version = "=0.8.6", default-features = false, features = ["sqlite", "runtime-tokio", "chrono", "migrate", "macros"] }
