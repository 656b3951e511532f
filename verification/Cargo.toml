[package]
name = "mock_broker"
version = "0.1.0"
edition = "2021"
publish = false

[dependencies]
roslibrust = { version = "*", features = ["mock", "rosbridge"] }
tokio = { version = "1", features = ["macros", "rt-multi-thread", "time", "sync", "signal", "test-util"] }
serde = { version = "1", features = ["derive"] }
