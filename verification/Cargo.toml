[package]
name = "game_lobby"
version = "0.1.0"
edition = "2021"
publish = false

[dependencies]
fastrand = "2"
tokio = { version = "1", features = ["rt-multi-thread", "macros", "sync"] }
axum = { version = "0.6", features = ["ws"] }
tower-http = { version = "0.4", features = ["cors"] }

[dev-dependencies]
speedy = "0.8"
