[package]
name = "burge"
version = "0.1.0"
edition = "2021"
publish = false

[dependencies]
uuid = { version = "1", features = ["v4"] }
serde = { version = "1", features = ["derive"] }
serde_json = "1"
rand = "0.8"
glium = "0.32"
image = "0.24"
