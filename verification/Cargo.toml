[package]
name = "degree_planner"
version = "0.1.0"
edition = "2021"
publish = false

[dependencies]
petgraph = "0.6"
serde = { version = "1", features = ["derive"] }
actix-web = "4"
actix-web-lab = "*"
mongodb = "2"
bson = "2"
futures-util = "0.3"
dotenvy = "0.15"
env_logger = "*"
