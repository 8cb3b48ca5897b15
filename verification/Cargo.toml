[package]
name = "route_planner"
version = "0.1.0"
edition = "2021"
publish = false

[dependencies]
geo = "0.28"
geo-types = "0.7"
serde = { version = "1", features = ["derive"] }
serde_json = "1"
bincode = "1.3"
chrono = { version = "0.4", features = ["serde"] }
rayon = "1"
num_cpus = "1"
log = "0.4"
env_logger = "0.10"
dotenv = "0.15"
lazy_static = "1"
thiserror = "1"
futures = "0.3"
tokio = { version = "1", features = ["macros", "rt-multi-thread", "sync"] }
tokio-postgres = "0.7"
actix-web = { version = "4", default-features = false, features = ["macros"] }
