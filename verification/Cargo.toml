[package]
name = "rusty_robots"
version = "0.1.0"
edition = "2021"
publish = false

[dependencies]
hashbrown = "=0.12.3"
serde = { version = "=1.0.229", features = ["derive"] }
serde_json = "=1.0.151"
rand = "=0.8.8"
num_cpus = "=1.17.0"
threadpool = "=1.8.1"
