[package]
name = "sqlpage"
version = "0.1.0"
edition = "2021"
publish = false

[dependencies]
handlebars = "=4.3.7"
serde_json = "1"
anyhow = "1"
log = "0.4"
futures-util = "0.3"
async-stream = "0.3"
tokio = { version = "1", default-features = false, features = ["time", "rt"] }
actix-web = { version = "4", default-features = false }
sqlx = { version = "0.6", default-features = false, features = ["any", "migrate", "runtime-tokio-rustls", "sqlite", "postgres", "mysql", "mssql"] }
