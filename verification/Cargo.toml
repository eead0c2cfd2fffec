[package]
name = "dbx_desktop"
version = "0.1.0"
edition = "2021"
publish = false

[dependencies]
dirs = "5"
libc = "0.2"
serde = { version = "1", features = ["derive"] }
sysinfo = { version = "=0.30.13", default-features = false }
