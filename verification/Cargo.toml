[package]
name = "points_calculator"
version = "0.1.0"
edition = "2021"
publish = false

[dependencies]
alloy = { version = "=0.8.3", default-features = false, features = ["rpc-types", "sol-types"] }
bigdecimal = "0.4"
chrono = { version = "=0.4.45", features = ["serde"] }
serde = { version = "1", features = ["derive"] }
serde_json = "1"
sqlx = { version = "0.8", default-features = false, features = ["runtime-tokio", "postgres", "bigdecimal", "chrono", "migrate"] }
tokio = { version = "1", features = ["macros", "rt-multi-thread", "time"] }
actix-web = { version = "4", default-features = false, features = ["macros"] }
actix-cors = "0.7"
eyre = "0.6"
dotenv = "0.15"
env_logger = { version = "0.11", default-features = false }
