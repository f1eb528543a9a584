[package]
name = "loadshedding"
version = "0.1.0"
edition = "2021"
publish = false

[dependencies]
chrono = "=0.4.45"
rocket = { version = "=0.5.2", features = ["json", "tls"] }
rocket_cors = "=0.6.0"
mongodb = "=2.8.2"
bson = "=2.15.0"
serde = { version = "=1.0.229", features = ["derive"] }
serde_json = "=1.0.154"
tokio = { version = "=1.54.1", features = ["rt-multi-thread", "macros", "fs", "time", "process", "io-util"] }
reqwest = { version = "=0.11.27", default-features = false, features = ["json", "rustls-tls"] }
log = "=0.4.34"
async-trait = "=0.1.92"
fern = "=0.6.2"
humantime = "=2.4.0"
dotenvy = "=0.15.7"
jsonwebtoken = "9"
argon2 = "0.5"
rand = "0.8"
hex = "0.4"
utoipa = { version = "3", features = ["rocket_extras"] }
