[package]
name = "surrealdb_sql"
version = "0.1.0"
edition = "2021"
publish = false

[dependencies]
rust_decimal = { version = "=1.43.0", features = ["maths"] }
geo = { version = "=0.26.0", features = ["use-serde"] }
serde = { version = "=1.0.229", features = ["derive"] }

[dev-dependencies]
nom = "=7.1.3"
