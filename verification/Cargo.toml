[package]
name = "chess_engine_api"
version = "0.1.0"
edition = "2021"
publish = false

[dependencies]
rand = "0.8"
rand_distr = "0.4"
ndarray = "0.15"
fastrand = "2"
lazy_static = "1"
serde = { version = "1", features = ["derive"] }
axum = "0.7"
axum-server = "0.7"
tokio = { version = "1", features = ["macros", "rt-multi-thread", "net"] }
tower-http = { version = "0.5", features = ["cors"] }
tracing = "0.1"
tracing-subscriber = { version = "0.3", features = ["env-filter"] }
