[package]
name = "cognets_broker"
version = "0.1.0"
edition = "2021"
publish = false

[dependencies]
serde = { version = "1", features = ["derive"] }
serde_json = "1"
regex = "1"
chrono = "0.4"
url = "2"
uuid = { version = "1", features = ["v4"] }
bson = "2"
actix-web = "4"
tokio = { version = "1", features = ["macros", "rt-multi-thread", "time"] }
reqwest = { version = "0.12", features = ["json"] }
log = "0.4"
env_logger = "0.11"
async-trait = "0.1"
thiserror = "2"
