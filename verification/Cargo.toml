[package]
name = "parkour_api"
version = "0.1.0"
edition = "2021"
publish = false

[dependencies]
chrono = "0.4"
handlebars = "4"
parking_lot = "0.12"
serde = { version = "1", features = ["derive"] }
serde_json = "1"
tokio = { version = "1", features = ["macros", "rt-multi-thread"] }
uuid = { version = "1", features = ["v4"] }
warp = "0.3"
