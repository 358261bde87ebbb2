[package]
name = "cirrus"
version = "0.2.0"
edition = "2021"
publish = false

[dependencies]
anyhow = "1"
bson = { version = "2", features = ["chrono-0_4"] }
chrono = "0.4"
config = "0.13"
futures = "0.3"
id3 = "1"
itertools = "0.10"
mongodb = "2"
rubato = "0.14"
serde = { version = "1", features = ["derive"] }
symphonia = "0.5"
tokio = { version = "1", features = ["macros", "rt-multi-thread"] }
walkdir = "2"
