[package]
name = "simple_ljt_client"
version = "0.1.0"
edition = "2021"
publish = false

[dependencies]
tui = { version = "0.19", default-features = false, features = ["crossterm"] }
crossterm = "0.25"
tokio = { version = "1", features = ["rt-multi-thread", "macros", "sync", "time"] }
uuid = { version = "1", features = ["v4"] }
