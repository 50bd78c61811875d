[package]
name = "uring_exec"
version = "0.1.0"
edition = "2021"
publish = false

[dependencies]
rustix = { version = "1", features = ["io_uring", "mm", "fs"] }
thiserror = "2"
