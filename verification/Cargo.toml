[package]
name = "derrick"
version = "0.1.0"
edition = "2021"
publish = false

[dependencies]
futures-core = "0.3"
log = "0.4"
sqlx = { version = "0.8", default-features = false, features = ["postgres", "runtime-tokio"] }
