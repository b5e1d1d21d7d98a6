[package]
name = "motion_detector"
version = "0.1.0"
edition = "2021"
publish = false

[dependencies]
opencv = { version = "*", default-features = false, features = ["imgproc", "videoio", "highgui"] }
serde = { version = "1", features = ["derive"] }
serde_json = "1"
