[package]
name = "ping_rs"
version = "0.1.0"
edition = "2021"
publish = false

[dependencies]
clap = { version = "=4.6.7", features = ["derive"] }
socket2 = { version = "=0.6.5", features = ["all"] }
tokio = { version = "=1.53.2", features = ["macros", "rt-multi-thread", "time"] }
