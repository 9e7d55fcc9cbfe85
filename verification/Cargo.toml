[package]
name = "rs_dynamic_mvt"
version = "0.1.0"
edition = "2021"
publish = false

[dependencies]
sha2 = "=0.11.0"
serde = { version = "*", features = ["derive"] }
serde_json = "*"
axum = "=0.8.9"
tokio = { version = "*", features = ["rt-multi-thread", "macros", "net"] }
sqlx = { version = "=0.9.0", features = ["runtime-tokio", "postgres", "json"] }
redis = "=1.7.1"
bytes = "*"
tower = "*"
tower-http = { version = "*", features = ["compression-gzip", "cors"] }
tracing = "*"
tracing-subscriber = { version = "*", features = ["env-filter"] }
futures-util = "*"
dotenvy = "*"
config = { version = "=0.15.27", default-features = false }
geo-types = "=0.7.20"
geo-traits = "=0.3.0"
wkb = "=0.9.2"
