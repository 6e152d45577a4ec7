[package]
name = "generative_img_serving"
version = "0.1.0"
edition = "2021"
publish = false

[dependencies]
anyhow = "*"
reqwest = { version = "*", default-features = false, features = ["json"] }
serde = { version = "*", features = ["derive"] }
serde_json = "*"
tokio = { version = "*", features = ["full"] }
tonic = "*"
uuid = { version = "*", features = ["v4"] }
