[package]
name = "space_time_trees"
version = "0.1.0"
edition = "2021"

[dependencies]
nalgebra = { version = "*", features = ["serde-serialize"] }
serde_json = "*"
serde = { version = "*", features = ["derive"] }
tokio = { version = "*", features = ["rt", "rt-multi-thread", "time", "macros", "sync"] }
log = "*"
env_logger = "*"
structopt = "*"
termtree = "*"
