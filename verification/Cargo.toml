[package]
name = "recipe_service"
version = "0.1.0"
edition = "2021"
publish = false

[dependencies]
rand = "0.8"
axum = "0.6"
tokio = { version = "1", features = ["full"] }
askama = "0.12"
serde = { version = "1", features = ["derive"] }
utoipa = { version = "3", features = ["axum_extras"] }
utoipa-swagger-ui = { version = "3", features = ["axum"] }
