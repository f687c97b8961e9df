[package]
name = "race_guess"
version = "0.1.0"
edition = "2021"
publish = false

[dependencies]
argon2 = "0.5"
chrono = { version = "0.4", features = ["serde"] }
csv_db = "*"
itertools = "*"
rocket = { version = "0.5", features = ["json", "secrets"] }
rocket_dyn_templates = { version = "0.2", features = ["tera"] }
serde = { version = "1", features = ["derive"] }
uuid = { version = "1", features = ["v4"] }
