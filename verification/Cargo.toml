[package]
name = "waddle"
version = "0.1.0"
edition = "2021"
publish = false

[dependencies]
shlex = "=1.3.0"
serde = { version = "1", features = ["derive"] }
serde_json = "1"
libc = "0.2"
gio = "*"
tokio = { version = "1", features = ["rt", "rt-multi-thread", "sync", "time"] }

[dev-dependencies]
tempfile = "3"
