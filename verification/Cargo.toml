[package]
name = "reservas"
version = "0.1.0"
edition = "2021"
publish = false

[dependencies]
actix-web = "4"
csv = "1"
reqwest = { version = "0.12", default-features = false, features = ["blocking", "json"] }
serde = { version = "1", features = ["derive"] }
tokio = { version = "1", default-features = false, features = ["macros", "rt", "sync"] }

[dev-dependencies]
chrono = "0.4"
