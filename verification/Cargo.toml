[package]
name = "memcal"
version = "0.1.0"
edition = "2021"
publish = false

[dependencies]
chrono = "*"
chrono-tz = "*"
sonyflake = "*"
uuid = { version = "*", features = ["v4"] }
