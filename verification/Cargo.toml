[package]
name = "brain-dump-core"
version = "0.1.0"
edition = "2021"
publish = false

[dependencies]
chrono = "0.4"
ulid = "1"
rusqlite = { version = "*", features = ["bundled"] }
clap = { version = "4", features = ["derive"] }
dirs = "*"
serde = { version = "1", features = ["derive"] }
serde_json = "1"
thiserror = "*"
