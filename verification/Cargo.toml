[package]
name = "sms-2dm"
version = "0.1.0"
edition = "2021"
publish = false

[dependencies]
num-traits = "0.2"
log = "0.4"
serde = { version = "1", features = ["derive"] }
thiserror = "1"
