[package]
name = "push_chess"
version = "0.1.0"
edition = "2021"
publish = false

[dependencies]
arrayvec = "0.7"
smallvec = "1"
serde = { version = "1", features = ["derive"] }
