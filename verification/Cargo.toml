[package]
name = "oqueue"
version = "0.1.0"
edition = "2021"
publish = false

[dependencies]
chrono = { version = "=0.4.45", features = ["serde"] }
uuid = { version = "=1.27.0", features = ["v4", "serde"] }
serde = { version = "=1.0.229", features = ["derive"] }
bcrypt = "=0.19.3"
jsonwebtoken = "=11.1.0"
actix-web = "=4.15.0"
actix-web-httpauth = "=0.8.3"
diesel = { version = "=2.3.13", features = ["postgres", "r2d2", "uuid", "chrono"] }
dotenv = "=0.15.0"
env_logger = "=0.11.11"
log = "=0.4.34"
