[package]
name = "moodle_sentinel"
version = "0.1.0"
edition = "2021"
publish = false

[dependencies]
chrono = "=0.4.45"
rusqlite = { version = "=0.40.2", features = ["bundled"] }
tokio = { version = "=1.53.2", features = ["rt", "rt-multi-thread", "macros", "time", "sync"] }
futures = "=0.3.34"
serde = { version = "=1.0.229", features = ["derive"] }
reqwest = { version = "=0.13.5", default-features = false, features = ["json", "form", "query"] }
barrel = { version = "=0.7.0", features = ["sqlite3"] }
lazy_static = "=1.5.1"
